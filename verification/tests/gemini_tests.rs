use roblox_mcp::gemini::GeminiClient;
use roblox_mcp::json::JsonValue;

fn obj(fields: Vec<(&str, JsonValue)>) -> JsonValue {
    JsonValue::Obj(fields.into_iter().map(|(k, v)| (k.to_string(), v)).collect())
}

fn response_with_text(text: &str) -> JsonValue {
    obj(vec![(
        "candidates",
        JsonValue::Arr(vec![obj(vec![(
            "content",
            obj(vec![(
                "parts",
                JsonValue::Arr(vec![obj(vec![("text", JsonValue::Text(text.to_string()))])]),
            )]),
        )])]),
    )])
}

#[test]
fn client_constructors_record_key_and_model() {
    let c = GeminiClient::new("k1".to_string(), "custom-model".to_string());
    assert_eq!(c.api_key_str(), "k1");
    assert_eq!(c.model_str(), "custom-model");
    let d = GeminiClient::default("k2".to_string());
    assert_eq!(d.api_key_str(), "k2");
    assert_eq!(d.model_str(), "gemini-pro");
    let f = GeminiClient::flash("k3".to_string());
    assert_eq!(f.api_key_str(), "k3");
    assert_eq!(f.model_str(), "gemini-2.0-flash");
}

#[test]
fn extract_text_reads_the_first_part() {
    let response = response_with_text("{\"add\":[]}");
    assert_eq!(GeminiClient::extract_text(&response), Some("{\"add\":[]}".to_string()));
}

#[test]
fn extract_text_requires_the_full_shape() {
    assert_eq!(GeminiClient::extract_text(&obj(vec![])), None);
    assert_eq!(
        GeminiClient::extract_text(&obj(vec![("candidates", JsonValue::Arr(vec![]))])),
        None
    );
    let no_text = obj(vec![(
        "candidates",
        JsonValue::Arr(vec![obj(vec![(
            "content",
            obj(vec![("parts", JsonValue::Arr(vec![obj(vec![])]))]),
        )])]),
    )]);
    assert_eq!(GeminiClient::extract_text(&no_text), None);
    let text_not_a_string = obj(vec![(
        "candidates",
        JsonValue::Arr(vec![obj(vec![(
            "content",
            obj(vec![("parts", JsonValue::Arr(vec![obj(vec![("text", JsonValue::Null)])]))]),
        )])]),
    )]);
    assert_eq!(GeminiClient::extract_text(&text_not_a_string), None);
}

#[test]
fn json_object_lookup_takes_the_first_match() {
    let v = obj(vec![("a", JsonValue::Bool(true)), ("a", JsonValue::Bool(false))]);
    match v.get("a") {
        Some(JsonValue::Bool(b)) => assert!(*b),
        _ => panic!("expected the first field"),
    }
    assert!(v.get("b").is_none());
}
