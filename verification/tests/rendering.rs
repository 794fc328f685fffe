//! Tests of the compact JSON rendering used for stored configuration
//! values: every JSON kind has its textual form pinned down.

use moon_registry::JsonValue;

fn text(s: &str) -> JsonValue {
    JsonValue::Text(s.to_string())
}

fn number(s: &str) -> JsonValue {
    JsonValue::Number(s.to_string())
}

#[test]
fn scalars_render_as_json_literals() {
    assert_eq!(JsonValue::Null.render(), "null");
    assert_eq!(JsonValue::Bool(true).render(), "true");
    assert_eq!(JsonValue::Bool(false).render(), "false");
    assert_eq!(number("80").render(), "80");
    assert_eq!(number("-3.25e7").render(), "-3.25e7");
}

#[test]
fn strings_render_quoted() {
    assert_eq!(text("eco").render(), "\"eco\"");
    assert_eq!(text("").render(), "\"\"");
    assert_eq!(text("héllo ✓").render(), "\"héllo ✓\"");
}

#[test]
fn strings_escape_quotes_backslashes_and_controls() {
    assert_eq!(text("say \"hi\"").render(), "\"say \\\"hi\\\"\"");
    assert_eq!(text("a\\b").render(), "\"a\\\\b\"");
    assert_eq!(text("a\nb\tc\rd").render(), "\"a\\nb\\tc\\rd\"");
    assert_eq!(text("\u{0008}\u{000C}").render(), "\"\\b\\f\"");
    assert_eq!(text("\u{0000}\u{0001}\u{001F}").render(), "\"\\u0000\\u0001\\u001f\"");
    // A solidus needs no escape, nor does anything above the controls.
    assert_eq!(text("a/b").render(), "\"a/b\"");
}

#[test]
fn arrays_render_compactly_in_order() {
    assert_eq!(JsonValue::Array(vec![]).render(), "[]");
    assert_eq!(JsonValue::Array(vec![number("1")]).render(), "[1]");
    assert_eq!(
        JsonValue::Array(vec![number("1"), text("x"), JsonValue::Bool(false)]).render(),
        "[1,\"x\",false]"
    );
}

#[test]
fn objects_render_compactly_in_member_order() {
    assert_eq!(JsonValue::Object(vec![]).render(), "{}");
    assert_eq!(
        JsonValue::Object(vec![("mode".to_string(), text("eco"))]).render(),
        "{\"mode\":\"eco\"}"
    );
    assert_eq!(
        JsonValue::Object(vec![
            ("b".to_string(), number("2")),
            ("a".to_string(), number("1")),
        ])
        .render(),
        "{\"b\":2,\"a\":1}"
    );
}

#[test]
fn nested_values_render_via_their_generic_textual_form() {
    let nested = JsonValue::Object(vec![(
        "limits".to_string(),
        JsonValue::Array(vec![
            number("1"),
            JsonValue::Object(vec![("hi".to_string(), JsonValue::Null)]),
        ]),
    )]);
    assert_eq!(nested.render(), "{\"limits\":[1,{\"hi\":null}]}");
}

#[test]
fn rendering_agrees_with_the_reference_serializer() {
    // The stored value text must match what serde_json::to_string
    // produces for the same document.
    // serde_json's map iterates keys in sorted order, so the sample
    // lists its members sorted too.
    let sample = JsonValue::Object(vec![
        ("count".to_string(), number("42")),
        ("extra".to_string(), JsonValue::Null),
        ("name".to_string(), text("moon \"one\"\n")),
        ("tags".to_string(), JsonValue::Array(vec![text("a/b"), JsonValue::Bool(true)])),
    ]);
    let mut map = serde_json::Map::new();
    map.insert(
        "count".to_string(),
        serde_json::Value::Number(serde_json::Number::from(42u32)),
    );
    map.insert("extra".to_string(), serde_json::Value::Null);
    map.insert(
        "name".to_string(),
        serde_json::Value::String("moon \"one\"\n".to_string()),
    );
    map.insert(
        "tags".to_string(),
        serde_json::Value::Array(vec![
            serde_json::Value::String("a/b".to_string()),
            serde_json::Value::Bool(true),
        ]),
    );
    let reference = serde_json::Value::Object(map);
    assert_eq!(sample.render(), serde_json::to_string(&reference).unwrap());
}
