use trickle_select::key::group_key;
use trickle_select::value::{LineValue, Value, ValueAndMeta};

fn obj(entries: Vec<(&str, Value)>) -> Value {
    Value::Object(entries.into_iter().map(|(k, v)| (k.to_string(), v)).collect())
}

#[test]
fn clone_keeps_nested_values() {
    let v = obj(vec![("a", Value::Array(vec![Value::I64(1), Value::Null])), ("b", obj(vec![("c", Value::Bool(true))]))]);
    assert_eq!(v.clone(), v);
}

#[test]
fn path_lookup_finds_nested_fields() {
    let v = obj(vec![("a", obj(vec![("b", Value::I64(7))]))]);
    let path = vec!["a".to_string(), "b".to_string()];
    assert_eq!(v.at_path(&path), Some(&Value::I64(7)));
    assert_eq!(v.at_path(&vec!["x".to_string()]), None);
    assert_eq!(v.at_path(&vec![]), Some(&v));
}

#[test]
fn parts_rewrites_value_and_meta() {
    let mut lv = LineValue::new(vec![b"{}".to_vec()], ValueAndMeta::from_value(Value::I64(1)));
    {
        let (value, meta) = lv.parts();
        assert_eq!(*value, Value::I64(1));
        assert_eq!(*meta, Value::Object(vec![]));
        *value = Value::Bool(false);
        *meta = Value::Null;
    }
    assert_eq!(lv.value(), &Value::Bool(false));
    assert_eq!(lv.parts().1, &Value::Null);
}

#[test]
fn default_pair_is_two_empty_objects() {
    let d = ValueAndMeta::default();
    assert_eq!(d.value, Value::Object(vec![]));
    assert_eq!(d.meta, Value::Object(vec![]));
}

#[test]
fn consume_merges_with_join() {
    let mut a = LineValue::new(vec![vec![1]], ValueAndMeta::from_value(Value::Array(vec![Value::I64(1)])));
    let b = LineValue::new(vec![vec![2]], ValueAndMeta::from_value(Value::Array(vec![Value::I64(2)])));
    let r: Result<(), String> = a.consume(b, |x, y| match (x.value, y.value) {
        (Value::Array(mut xs), Value::Array(ys)) => {
            xs.extend(ys);
            Ok(ValueAndMeta { value: Value::Array(xs), meta: x.meta })
        }
        _ => Err("not arrays".to_string()),
    });
    assert_eq!(r, Ok(()));
    assert_eq!(a.value(), &Value::Array(vec![Value::I64(1), Value::I64(2)]));
}

#[test]
fn consume_failure_keeps_pair_and_joins_buffers() {
    let mut a = LineValue::new(vec![vec![1]], ValueAndMeta::from_value(Value::I64(1)));
    let b = LineValue::new(vec![vec![2], vec![3]], ValueAndMeta::from_value(Value::I64(2)));
    let r: Result<(), String> = a.consume(b, |_, _| Err("no".to_string()));
    assert_eq!(r, Err("no".to_string()));
    assert_eq!(a.value(), &Value::I64(1));
    assert_eq!(a.raw(), &vec![vec![1], vec![2], vec![3]]);
}

#[test]
fn consume_success_joins_buffers_in_order() {
    let mut a = LineValue::new(vec![vec![1]], ValueAndMeta::from_value(Value::I64(1)));
    let b = LineValue::new(vec![vec![2]], ValueAndMeta::from_value(Value::I64(2)));
    let r: Result<(), String> = a.consume(b, |_, y| Ok(y));
    assert_eq!(r, Ok(()));
    assert_eq!(a.value(), &Value::I64(2));
    assert_eq!(a.raw(), &vec![vec![1], vec![2]]);
}

#[test]
fn unit_equality_ignores_buffers() {
    let a = LineValue::new(vec![vec![1]], ValueAndMeta::from_value(Value::I64(1)));
    let b = LineValue::new(vec![], ValueAndMeta::from_value(Value::I64(1)));
    let c = LineValue::new(vec![vec![1]], ValueAndMeta::from_value(Value::I64(2)));
    let d = LineValue::new(vec![vec![1]], ValueAndMeta { value: Value::I64(1), meta: Value::Null });
    assert!(a == b);
    assert!(a != c);
    assert!(a != d);
}

#[test]
fn value_equality_is_structural() {
    let x = obj(vec![("a", Value::Array(vec![Value::I64(1), Value::String("s".to_string())]))]);
    assert!(x.same_as(&x.clone()));
    assert!(!x.same_as(&obj(vec![("a", Value::Array(vec![Value::I64(1)]))])));
    assert!(!x.same_as(&obj(vec![("b", Value::Array(vec![Value::I64(1), Value::String("s".to_string())]))])));
    assert!(!Value::Null.same_as(&Value::Bool(false)));
}

#[test]
fn clone_of_unit_drops_buffers() {
    let a = LineValue::new(vec![vec![1, 2]], ValueAndMeta::from_value(Value::I64(3)));
    let c = a.clone();
    assert_eq!(c.value(), &Value::I64(3));
    assert!(c.raw().is_empty());
    assert_eq!(c, LineValue::new(vec![], ValueAndMeta::from_value(Value::I64(3))));
}

#[test]
fn group_keys_have_exact_text() {
    assert_eq!(group_key(&Value::Null), "n");
    assert_eq!(group_key(&Value::Bool(true)), "t");
    assert_eq!(group_key(&Value::I64(42)), "i42;");
    assert_eq!(group_key(&Value::I64(-7)), "m7;");
    assert_eq!(group_key(&Value::I64(i64::MIN)), "m9223372036854775808;");
    assert_eq!(group_key(&Value::String("ab".to_string())), "s2:ab");
    assert_eq!(group_key(&Value::Array(vec![Value::I64(1), Value::Null])), "a2:i1;n");
    assert_eq!(group_key(&obj(vec![("k", Value::Bool(false))])), "o1:s1:kf");
}

#[test]
fn distinct_values_have_distinct_keys() {
    let values = vec![
        Value::Null,
        Value::Bool(false),
        Value::I64(1),
        Value::String("1".to_string()),
        Value::String("i1;".to_string()),
        Value::Array(vec![Value::I64(1)]),
        Value::Array(vec![Value::String("1".to_string())]),
        obj(vec![("1", Value::Null)]),
    ];
    for (i, a) in values.iter().enumerate() {
        for (j, b) in values.iter().enumerate() {
            assert_eq!(i == j, group_key(a) == group_key(b));
        }
    }
}
