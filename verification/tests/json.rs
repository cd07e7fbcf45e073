use oma::json::{deep_merge_json, JsonNumber, JsonValue};

fn num(n: u64) -> JsonValue {
    JsonValue::Number(JsonNumber::PosInt(n))
}

fn text(s: &str) -> JsonValue {
    JsonValue::Str(s.to_string())
}

fn obj(members: Vec<(&str, JsonValue)>) -> JsonValue {
    JsonValue::Object(members.into_iter().map(|(k, v)| (k.to_string(), v)).collect())
}

#[test]
fn test_deep_merge_json() {
    let mut target = obj(vec![("a", num(1)), ("nested", obj(vec![("x", text("foo")), ("y", num(10))]))]);
    let source = obj(vec![("b", num(2)), ("nested", obj(vec![("y", num(20)), ("z", text("bar"))]))]);
    deep_merge_json(&mut target, &source);

    assert_eq!(target.get("a"), Some(&num(1)));
    assert_eq!(target.get("b"), Some(&num(2)));
    let nested = target.get("nested").unwrap();
    assert_eq!(nested.get("x"), Some(&text("foo")));
    assert_eq!(nested.get("y"), Some(&num(20)));
    assert_eq!(nested.get("z"), Some(&text("bar")));
    // new keys take their place in key order, as in a map ordered by key
    assert_eq!(
        target,
        obj(vec![
            ("a", num(1)),
            ("b", num(2)),
            ("nested", obj(vec![("x", text("foo")), ("y", num(20)), ("z", text("bar"))])),
        ])
    );
}

#[test]
fn merge_replaces_anything_but_objects() {
    let mut target = obj(vec![("a", num(1))]);
    deep_merge_json(&mut target, &JsonValue::Array(vec![num(1), JsonValue::Null]));
    assert_eq!(target, JsonValue::Array(vec![num(1), JsonValue::Null]));

    let mut target = text("x");
    deep_merge_json(&mut target, &obj(vec![("k", JsonValue::Bool(true))]));
    assert_eq!(target, obj(vec![("k", JsonValue::Bool(true))]));
}

#[test]
fn deep_clone_copies_everything() {
    let v = obj(vec![
        ("arr", JsonValue::Array(vec![num(1), JsonValue::Number(JsonNumber::NegInt(-2)), JsonValue::Number(JsonNumber::Float("0.5".into()))])),
        ("s", text("é")),
    ]);
    assert_eq!(v.deep_clone(), v);
}

#[test]
fn lookups_follow_serde_json() {
    let v = obj(vec![("a", obj(vec![("b", JsonValue::Array(vec![text("c")]))]))]);
    assert_eq!(v.path(&["a", "b"]).and_then(|x| x.get_index(0)).and_then(|x| x.as_str()), Some("c"));
    assert!(v.path(&["a", "missing"]).is_none());
    assert!(v.get_index(0).is_none());
    assert_eq!(num(7).as_u64(), Some(7));
    assert_eq!(JsonValue::Number(JsonNumber::NegInt(-7)).as_u64(), None);
}
