use rmarshal::value::{fix_toml, merge_values, Value};

fn s(x: &str) -> Value {
    Value::String(x.to_owned())
}

fn i(x: i64) -> Value {
    Value::Integer(x)
}

fn obj(fields: Vec<(&str, Value)>) -> Value {
    Value::Object(fields.into_iter().map(|(k, v)| (k.to_owned(), v)).collect())
}

fn keys(v: &Value) -> Vec<String> {
    match v {
        Value::Object(o) => o.iter().map(|(k, _)| k.clone()).collect(),
        _ => Vec::new(),
    }
}

fn three_way(depth: isize) -> Value {
    let a = obj(vec![("msg", s("hi")), ("values", obj(vec![("a", i(1)), ("b", i(2))]))]);
    let b = obj(vec![("level", i(1))]);
    let c = obj(vec![("msg", s("hello")), ("values", obj(vec![("b", i(3)), ("c", i(4))]))]);
    let ab = merge_values(&a, &b, depth);
    merge_values(&ab, &c, depth)
}

#[test]
fn merge_depth_zero_gives_right() {
    let a = obj(vec![("x", i(1))]);
    let b = Value::Array(vec![i(2), Value::Nil]);
    assert_eq!(merge_values(&a, &b, 0), b);
    assert_eq!(merge_values(&b, &a, 0), a);
    assert_eq!(merge_values(&Value::Nil, &s("z"), 0), s("z"));
}

#[test]
fn merge_key_ordering() {
    let r = three_way(-1);
    let expected = obj(vec![
        ("msg", s("hello")),
        ("values", obj(vec![("a", i(1)), ("b", i(3)), ("c", i(4))])),
        ("level", i(1)),
    ]);
    assert_eq!(r, expected);
    assert_eq!(keys(&r), vec!["msg", "values", "level"]);
}

#[test]
fn merge_depth_bound() {
    let r = three_way(1);
    let expected = obj(vec![
        ("msg", s("hello")),
        ("values", obj(vec![("b", i(3)), ("c", i(4))])),
        ("level", i(1)),
    ]);
    assert_eq!(r, expected);
}

#[test]
fn merge_array_shape() {
    let a = Value::Array(vec![i(1), i(2), i(3)]);
    let b = Value::Array(vec![i(9), i(9)]);
    assert_eq!(merge_values(&a, &b, -1), Value::Array(vec![i(9), i(9), i(3)]));
    let c = Value::Array(vec![i(1)]);
    assert_eq!(merge_values(&c, &a, -1), Value::Array(vec![i(1), i(2), i(3)]));
}

#[test]
fn merge_mismatched_shapes_take_right() {
    let a = Value::Array(vec![i(1)]);
    let b = obj(vec![("k", i(2))]);
    assert_eq!(merge_values(&a, &b, -1), b);
    assert_eq!(merge_values(&b, &a, -1), a);
    assert_eq!(merge_values(&i(1), &Value::Boolean(true), 5), Value::Boolean(true));
}

#[test]
fn merge_most_negative_depth_is_unbounded() {
    let a = obj(vec![("v", obj(vec![("a", i(1))]))]);
    let b = obj(vec![("v", obj(vec![("b", i(2))]))]);
    let r = merge_values(&a, &b, isize::MIN);
    assert_eq!(r, obj(vec![("v", obj(vec![("a", i(1)), ("b", i(2))]))]));
}

#[test]
fn duplicate_is_equal() {
    let v = obj(vec![("a", Value::Array(vec![Value::Float("1.5".to_owned()), Value::Nil]))]);
    assert_eq!(v.duplicate(), v);
    assert_eq!(v.clone(), v);
}

#[test]
fn fix_toml_orders_scalars_arrays_objects() {
    let v = obj(vec![
        ("t", obj(vec![("x", Value::Array(vec![])), ("y", i(1))])),
        ("a", Value::Array(vec![i(1)])),
        ("n", i(2)),
        ("b", Value::Array(vec![])),
        ("m", s("q")),
    ]);
    let r = fix_toml(&v);
    let expected = obj(vec![
        ("n", i(2)),
        ("m", s("q")),
        ("a", Value::Array(vec![i(1)])),
        ("b", Value::Array(vec![])),
        ("t", obj(vec![("y", i(1)), ("x", Value::Array(vec![]))])),
    ]);
    assert_eq!(r, expected);
    assert_eq!(fix_toml(&i(3)), i(3));
}

#[test]
fn merge_empty_sides() {
    let empty = obj(vec![]);
    let full = obj(vec![("a", i(1)), ("b", i(2))]);
    assert_eq!(merge_values(&empty, &full, -1), full);
    assert_eq!(merge_values(&full, &empty, -1), full);
    let none = Value::Array(vec![]);
    assert_eq!(merge_values(&none, &none, 3), none);
}

#[test]
fn merge_equal_keys_merge_values_in_place() {
    let a = obj(vec![("k", Value::Array(vec![i(1), i(2)])), ("z", i(0))]);
    let b = obj(vec![("n", i(5)), ("k", Value::Array(vec![i(7)]))]);
    let r = merge_values(&a, &b, 2);
    assert_eq!(r, obj(vec![("k", Value::Array(vec![i(7), i(2)])), ("z", i(0)), ("n", i(5))]));
    let shallow = merge_values(&a, &b, 1);
    assert_eq!(shallow, obj(vec![("k", Value::Array(vec![i(7)])), ("z", i(0)), ("n", i(5))]));
}
