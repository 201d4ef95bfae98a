use otel_logs_core::{KeyValue, Resource, SdkLoggerProvider, Value};

fn kv(k: &str, v: &str) -> KeyValue {
    KeyValue::new(k.to_string(), Value::Str(v.to_string()))
}

#[test]
fn with_resource_collision_keeps_earlier_value() {
    let builder = SdkLoggerProvider::builder()
        .with_resource(Resource::new(vec![kv("key1", "first")]))
        .with_resource(Resource::new(vec![kv("key1", "second"), kv("key2", "v2")]));
    let resource = builder.resource().unwrap();
    assert_eq!(resource.get(&"key1".to_string()), Some(Value::Str("first".to_string())));
    assert_eq!(resource.get(&"key2".to_string()), Some(Value::Str("v2".to_string())));
    assert_eq!(resource.len(), 2);
}

#[test]
fn with_resource_distinct_keys_union() {
    let mut builder = SdkLoggerProvider::builder();
    for i in 0..5 {
        builder = builder.with_resource(Resource::new(vec![KeyValue::new(format!("k{i}"), Value::I64(i))]));
    }
    let resource = builder.resource().unwrap();
    assert_eq!(resource.len(), 5);
    for i in 0..5 {
        assert_eq!(resource.get(&format!("k{i}")), Some(Value::I64(i)));
    }
}

#[test]
fn builder_without_resource_has_none() {
    let builder = SdkLoggerProvider::builder();
    assert!(builder.resource().is_none());
}

#[test]
fn new_resource_keeps_last_duplicate() {
    let r = Resource::new(vec![kv("a", "1"), kv("b", "2"), kv("a", "3")]);
    assert_eq!(r.len(), 2);
    assert_eq!(r.get(&"a".to_string()), Some(Value::Str("3".to_string())));
    assert_eq!(r.get(&"c".to_string()), None);
}

#[test]
fn empty_resource() {
    let r = Resource::empty();
    assert_eq!(r.len(), 0);
    assert_eq!(r.schema_url(), None);
}

#[test]
fn merge_is_left_biased() {
    let left = Resource::from_schema_url(vec![kv("a", "L"), KeyValue::new("n".to_string(), Value::Bool(true))], Some("left".to_string()));
    let right = Resource::from_schema_url(vec![kv("a", "R"), kv("b", "R")], Some("right".to_string()));
    let m = left.merge(right);
    assert_eq!(m.len(), 3);
    assert_eq!(m.get(&"a".to_string()), Some(Value::Str("L".to_string())));
    assert_eq!(m.get(&"b".to_string()), Some(Value::Str("R".to_string())));
    assert_eq!(m.get(&"n".to_string()), Some(Value::Bool(true)));
    assert_eq!(m.schema_url(), Some("left".to_string()));

    let plain = Resource::new(vec![]);
    let m2 = plain.merge(Resource::from_schema_url(vec![], Some("right".to_string())));
    assert_eq!(m2.schema_url(), Some("right".to_string()));
}
