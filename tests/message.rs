use pact_matching::json::{JsonNumber, JsonValue};
use pact_matching::message::{Message, PactSpecification, ProviderState};
use pact_matching::bodies::OptionalBody;

fn to_json(v: serde_json::Value) -> JsonValue {
    match v {
        serde_json::Value::Null => JsonValue::Null,
        serde_json::Value::Bool(b) => JsonValue::Bool(b),
        serde_json::Value::Number(n) => JsonValue::Number(JsonNumber::parse(&n.to_string()).unwrap()),
        serde_json::Value::String(s) => JsonValue::String(s),
        serde_json::Value::Array(items) => JsonValue::Array(items.into_iter().map(to_json).collect()),
        serde_json::Value::Object(m) => JsonValue::Object(m.into_iter().map(|(k, v)| (k, to_json(v))).collect()),
    }
}

fn parse(text: &str) -> JsonValue {
    to_json(serde_json::from_str(text).unwrap())
}

#[test]
fn loading_message_from_json() {
    let message_json = r#"{
            "description": "String",
            "providerState": "provider state",
            "matchingRules": {}
        }"#;
    let message = Message::from_json(0, &parse(message_json), &PactSpecification::V3).unwrap();
    assert_eq!(message.description, "String");
    assert_eq!(message.provider_states, vec![ProviderState {
        name: "provider state".to_string(),
        params: vec![],
    }]);
    assert!(message.matching_rules.rules.is_empty());
}

#[test]
fn defaults_to_number_if_no_description() {
    let message_json = r#"{
            "providerState": "provider state"
        }"#;
    let message = Message::from_json(0, &parse(message_json), &PactSpecification::V3).unwrap();
    assert_eq!(message.description, "Message 0");
}

#[test]
fn defaults_to_none_if_no_provider_state() {
    let message_json = r#"{
        }"#;
    let message = Message::from_json(0, &parse(message_json), &PactSpecification::V3).unwrap();
    assert!(message.provider_states.is_empty());
    assert!(message.matching_rules.rules.is_empty());
}

#[test]
fn defaults_to_none_if_provider_state_null() {
    let message_json = r#"{
            "providerState": null
        }"#;
    let message = Message::from_json(0, &parse(message_json), &PactSpecification::V3).unwrap();
    assert!(message.provider_states.is_empty());
}

#[test]
fn returns_an_error_if_the_spec_version_is_less_than_three() {
    let message_json = r#"{
            "description": "String",
            "providerState": "provider state"
        }"#;
    let result = Message::from_json(0, &parse(message_json), &PactSpecification::V1);
    assert!(result.is_err());
}

#[test]
fn message_with_json_body() {
    let message_json = r#"{
            "contents": {
                "hello": "world"
            },
            "metadata": {
                "contentType": "application/json"
            }
        }"#;
    let message = Message::from_json(0, &parse(message_json), &PactSpecification::V3).unwrap();
    assert_eq!(message.contents.str_value(), "{\"hello\":\"world\"}");
}

#[test]
fn message_with_non_json_body() {
    let message_json = r#"{
            "contents": "hello world",
            "metadata": {
                "contentType": "text/plain"
            }
        }"#;
    let message = Message::from_json(0, &parse(message_json), &PactSpecification::V3).unwrap();
    assert_eq!(message.contents.str_value(), "hello world");
}

#[test]
fn message_with_empty_body() {
    let message_json = r#"{
            "contents": "",
            "metadata": {
                "contentType": "text/plain"
            }
        }"#;
    let message = Message::from_json(0, &parse(message_json), &PactSpecification::V3).unwrap();
    assert_eq!(message.contents.str_value(), "");
}

#[test]
fn message_with_missing_body() {
    let message_json = r#"{
        }"#;
    let message = Message::from_json(0, &parse(message_json), &PactSpecification::V3).unwrap();
    assert_eq!(message.contents, OptionalBody::Missing);
}

#[test]
fn message_with_null_body() {
    let message_json = r#"{
            "contents": null,
            "metadata": {
                "contentType": "text/plain"
            }
        }"#;
    let message = Message::from_json(0, &parse(message_json), &PactSpecification::V3).unwrap();
    assert_eq!(message.contents, OptionalBody::Null);
}

#[test]
fn message_mimetype_is_based_on_the_metadata() {
    let message = Message {
        metadata: vec![("contentType".to_string(), "text/plain".to_string())],
        ..Message::default()
    };
    assert_eq!(message.content_type().unwrap_or_default().to_string(), "text/plain");
}

#[test]
fn message_mimetype_defaults_to_json() {
    let message = Message::default();
    assert_eq!(message.content_type().unwrap_or_default().to_string(), "application/json");
}

#[test]
fn message_from_json_reads_v3_provider_states_and_metadata() {
    let message_json = r#"{
            "description": "d",
            "providerStates": [{ "name": "s1", "params": { "id": 7 } }, { "name": 3 }],
            "metadata": { "contentType": "text/plain", "count": 2 },
            "matchingRules": { "body": { "$.a": { "matchers": [] } } }
        }"#;
    let message = Message::from_json(4, &parse(message_json), &PactSpecification::V3).unwrap();
    assert_eq!(message.provider_states.len(), 2);
    assert_eq!(message.provider_states[0].name, "s1");
    assert_eq!(message.provider_states[0].params, vec![("id".to_string(), JsonValue::Number(JsonNumber::parse("7").unwrap()))]);
    assert_eq!(message.provider_states[1].name, "3");
    assert!(message.provider_states[1].params.is_empty());
    assert_eq!(message.metadata, vec![
        ("contentType".to_string(), "text/plain".to_string()),
        ("count".to_string(), "2".to_string()),
    ]);
    assert_eq!(message.matching_rules.rules.len(), 1);
    assert_eq!(message.matching_rules.rules[0].0, "body");
}

#[test]
fn message_description_index_and_non_string_description() {
    let message = Message::from_json(12, &parse("{}"), &PactSpecification::V3).unwrap();
    assert_eq!(message.description, "Message 12");
    let message = Message::from_json(0, &parse(r#"{"description": [1, true]}"#), &PactSpecification::V3).unwrap();
    assert_eq!(message.description, "[1,true]");
}

#[test]
fn message_from_json_reads_v4_and_rejects_v2_with_error_text() {
    let message = Message::from_json(0, &parse(r#"{"description": "d"}"#), &PactSpecification::V4).unwrap();
    assert_eq!(message.description, "d");
    for version in [PactSpecification::Unknown, PactSpecification::V1, PactSpecification::V1_1, PactSpecification::V2] {
        let result = Message::from_json(0, &parse("{}"), &version);
        assert_eq!(result.unwrap_err(), "Messages require Pact Specification version 3 or later");
    }
}

#[test]
fn message_number_body_is_its_json_text() {
    let message = Message::from_json(0, &parse(r#"{"contents": 42}"#), &PactSpecification::V3).unwrap();
    assert_eq!(message.contents, OptionalBody::Present(b"42".to_vec(), None, None));
}

#[test]
fn message_unicode_body_is_utf8() {
    let message = Message::from_json(0, &parse(r#"{"contents": "hé€"}"#), &PactSpecification::V3).unwrap();
    assert_eq!(message.contents, OptionalBody::Present("hé€".as_bytes().to_vec(), None, None));
    assert_eq!(message.contents.str_value(), "hé€");
}

#[test]
fn message_mimetype_key_is_case_insensitive_and_invalid_gives_none() {
    let message = Message {
        metadata: vec![("Content-Type".to_string(), "text/xml; charset=UTF-8".to_string())],
        ..Message::default()
    };
    assert_eq!(message.content_type().unwrap().to_string(), "text/xml;charset=UTF-8");
    assert_eq!(message.lookup_content_type(), Some("text/xml; charset=UTF-8".to_string()));
    let message = Message {
        metadata: vec![("contenttype".to_string(), "nonsense".to_string())],
        ..Message::default()
    };
    assert!(message.content_type().is_none());
}

#[test]
fn message_mimetype_sniffed_from_contents_without_metadata() {
    let message = Message {
        metadata: vec![],
        contents: OptionalBody::Present(b"  <a/>".to_vec(), None, None),
        ..Message::default()
    };
    assert_eq!(message.content_type().unwrap().to_string(), "application/xml");
    assert!(message.is_message());
    assert!(!message.is_request_response());
}

#[test]
fn message_empty_description_gets_number() {
    let message = Message::from_json(5, &parse(r#"{"description": ""}"#), &PactSpecification::V3).unwrap();
    assert_eq!(message.description, "Message 5");
}

#[test]
fn message_reads_v3_generators() {
    let message_json = r#"{
            "description": "d",
            "generators": { "body": { "$.id": { "type": "RandomInt", "min": 1, "max": 9 } } }
        }"#;
    let message = Message::from_json(0, &parse(message_json), &PactSpecification::V3).unwrap();
    assert_eq!(message.generators.categories.len(), 1);
    assert_eq!(message.generators.categories[0].0, "body");
    let copy = message.as_message().unwrap();
    assert_eq!(copy, message);
}

#[test]
fn message_written_in_v3_form_reads_back() {
    let message_json = r#"{
            "description": "d",
            "providerStates": [{ "name": "s", "params": { "id": 7 } }],
            "contents": { "hello": "world" },
            "metadata": { "contentType": "application/json" },
            "matchingRules": { "body": {} },
            "generators": { "body": { "$.id": { "type": "Uuid" } } }
        }"#;
    let message = Message::from_json(0, &parse(message_json), &PactSpecification::V3).unwrap();
    let written = message.to_json();
    let again = Message::from_json(9, &written, &PactSpecification::V3).unwrap();
    assert_eq!(again, message);
    let third = Message::from_json(2, &again.to_json(), &PactSpecification::V3).unwrap();
    assert_eq!(third, message);
}

#[test]
fn message_to_json_leaves_out_missing_contents() {
    let message = Message::from_json(1, &parse("{}"), &PactSpecification::V3).unwrap();
    let written = message.to_json();
    assert!(written.get("contents").is_none());
    assert_eq!(written.get("description"), Some(&JsonValue::String("Message 1".to_string())));
    let null_body = Message::from_json(1, &parse(r#"{"contents": null}"#), &PactSpecification::V3).unwrap();
    assert_eq!(null_body.to_json().get("contents"), Some(&JsonValue::Null));
}
