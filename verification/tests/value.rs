use crabstorm::Value;

fn sample() -> Value {
    Value::Object(vec![
        ("k".to_string(), Value::Number(1)),
        (
            "xs".to_string(),
            Value::Array(vec![Value::Bool(true), Value::Null, Value::Text("hi".to_string())]),
        ),
    ])
}

#[test]
fn structurally_equal_values_hash_alike() {
    let a = sample();
    let b = sample();
    assert!(a.equals(&b));
    assert_eq!(a.hash(), b.hash());
}

#[test]
fn different_values_compare_unequal() {
    let a = sample();
    let b = Value::Object(vec![("k".to_string(), Value::Number(2))]);
    assert!(!a.equals(&b));

    assert!(!Value::Null.equals(&Value::Bool(false)));
    assert!(!Value::Number(1).equals(&Value::Number(2)));
    assert!(!Value::Text("a".to_string()).equals(&Value::Text("b".to_string())));
}

#[test]
fn container_order_matters() {
    let a = Value::Array(vec![Value::Number(1), Value::Number(2)]);
    let b = Value::Array(vec![Value::Number(2), Value::Number(1)]);
    assert!(!a.equals(&b));
}

#[test]
fn hashes_separate_common_values() {
    let a = Value::Number(1).hash();
    let b = Value::Number(2).hash();
    let c = Value::Null.hash();
    assert_ne!(a, b);
    assert_ne!(a, c);
}
