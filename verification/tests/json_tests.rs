use serde_json::Value;
use usfm3::json::{to_compact_string, to_pretty_string, JsonValue, Member};

fn member(key: &str, value: JsonValue) -> Member {
    Member { key: key.to_string(), value }
}

/// A nested value whose keys are already in sorted order, so that
/// `serde_json`'s own map writes them in the same order.
fn sample() -> JsonValue {
    JsonValue::Object(vec![
        member("a", JsonValue::Array(vec![])),
        member(
            "b",
            JsonValue::Array(vec![JsonValue::Number(0), JsonValue::Number(20)]),
        ),
        member("c", JsonValue::Object(vec![])),
        member(
            "d",
            JsonValue::Object(vec![member("k", JsonValue::String("say \"hi\"\n\\ ok".into()))]),
        ),
    ])
}

fn value_of(v: &JsonValue) -> Value {
    match v {
        JsonValue::String(s) => Value::String(s.clone()),
        JsonValue::Number(n) => Value::from(*n),
        JsonValue::Array(items) => Value::Array(items.iter().map(value_of).collect()),
        JsonValue::Object(members) => {
            let mut map = serde_json::Map::new();
            for m in members {
                map.insert(m.key.clone(), value_of(&m.value));
            }
            Value::Object(map)
        }
    }
}

#[test]
fn compact_text_matches_serde_json() {
    let v = sample();
    assert_eq!(
        to_compact_string(&v).unwrap(),
        serde_json::to_string(&value_of(&v)).unwrap()
    );
}

#[test]
fn pretty_text_matches_serde_json() {
    let v = sample();
    assert_eq!(
        to_pretty_string(&v).unwrap(),
        serde_json::to_string_pretty(&value_of(&v)).unwrap()
    );
}

#[test]
fn compact_text_exact() {
    let v = JsonValue::Object(vec![
        member("type", JsonValue::String("x".into())),
        member("n", JsonValue::Number(3)),
        member("a", JsonValue::Array(vec![])),
    ]);
    assert_eq!(to_compact_string(&v).unwrap(), "{\"type\":\"x\",\"n\":3,\"a\":[]}");
    assert_eq!(
        to_pretty_string(&v).unwrap(),
        "{\n  \"type\": \"x\",\n  \"n\": 3,\n  \"a\": []\n}"
    );
}

#[test]
fn accessors_read_objects_and_arrays() {
    let v = sample();
    assert!(v.get("a").is_some());
    assert!(v.get("missing").is_none());
    let b = v.get("b").unwrap();
    assert_eq!(b.at(1), Some(&JsonValue::Number(20)));
    assert!(b.at(2).is_none());
    let k = v.get("d").and_then(|d| d.get("k")).and_then(|k| k.as_str());
    assert_eq!(k, Some("say \"hi\"\n\\ ok"));
    assert!(JsonValue::Number(1).as_str().is_none());
}
