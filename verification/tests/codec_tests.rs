use chat_room::codec::decode_envelope;
use chat_room::codec::decode_message_data;
use chat_room::codec::encode_envelope;
use chat_room::codec::encode_message_data;
use chat_room::MessageData;
use chat_room::MsgTypes;
use chat_room::WebSocketMessage;

fn envelope(t: MsgTypes, da: Option<Vec<String>>, d: Option<&str>) -> WebSocketMessage {
    WebSocketMessage { message_type: t, data_array: da, data: d.map(|s| s.to_string()) }
}

#[test]
fn encode_register_exact_text() {
    let e = envelope(MsgTypes::Register, None, Some("alice"));
    assert_eq!(
        encode_envelope(&e),
        "{\"messageType\":\"register\",\"dataArray\":null,\"data\":\"alice\"}"
    );
}

#[test]
fn encode_users_exact_text() {
    let e = envelope(
        MsgTypes::Users,
        Some(vec!["alice".to_string(), "bob".to_string()]),
        None,
    );
    assert_eq!(
        encode_envelope(&e),
        "{\"messageType\":\"users\",\"dataArray\":[\"alice\",\"bob\"],\"data\":null}"
    );
}

#[test]
fn encode_empty_array_exact_text() {
    let e = envelope(MsgTypes::Users, Some(vec![]), None);
    assert_eq!(
        encode_envelope(&e),
        "{\"messageType\":\"users\",\"dataArray\":[],\"data\":null}"
    );
}

#[test]
fn encode_message_data_exact_text() {
    let m = MessageData { from: "alice".to_string(), message: "hi there".to_string() };
    assert_eq!(encode_message_data(&m), "{\"from\":\"alice\",\"message\":\"hi there\"}");
}

#[test]
fn encode_escapes_quote_backslash_and_controls() {
    let m = MessageData {
        from: "a\"b".to_string(),
        message: "tab\there\nnew \\ end\u{01}".to_string(),
    };
    assert_eq!(
        encode_message_data(&m),
        "{\"from\":\"a\\\"b\",\"message\":\"tab\\there\\nnew \\\\ end\\u0001\"}"
    );
}

#[test]
fn decode_envelope_round_trips_encode() {
    let e = envelope(
        MsgTypes::Users,
        Some(vec!["a b".to_string(), "c\"d".to_string(), "".to_string()]),
        Some("x\ny"),
    );
    let text = encode_envelope(&e);
    let back = decode_envelope(&text).expect("canonical text must decode");
    assert!(matches!(back.message_type, MsgTypes::Users));
    assert_eq!(
        back.data_array,
        Some(vec!["a b".to_string(), "c\"d".to_string(), "".to_string()])
    );
    assert_eq!(back.data, Some("x\ny".to_string()));
}

#[test]
fn decode_message_data_round_trips_encode() {
    let m = MessageData { from: "a/b".to_string(), message: "say \"hi\"\r\n".to_string() };
    let text = encode_message_data(&m);
    let back = decode_message_data(&text).expect("canonical text must decode");
    assert_eq!(back.from, "a/b");
    assert_eq!(back.message, "say \"hi\"\r\n");
}

#[test]
fn decode_accepts_whitespace_and_any_member_order() {
    let text = " {\n \"data\" : null ,\t\"dataArray\": [ \"bob\" , \"eve\" ] , \"messageType\" : \"users\" }\r\n";
    let e = decode_envelope(text).expect("reordered members must decode");
    assert!(matches!(e.message_type, MsgTypes::Users));
    assert_eq!(e.data_array, Some(vec!["bob".to_string(), "eve".to_string()]));
    assert_eq!(e.data, None);
}

#[test]
fn decode_accepts_missing_optional_members() {
    let e = decode_envelope("{\"messageType\":\"register\"}").expect("optional members may be absent");
    assert!(matches!(e.message_type, MsgTypes::Register));
    assert_eq!(e.data_array, None);
    assert_eq!(e.data, None);
}

#[test]
fn decode_simple_and_unicode_escapes() {
    let e = decode_envelope("{\"messageType\":\"message\",\"data\":\"\\u0041\\t\\\"\\\\\\/\\u00e9\"}")
        .expect("escapes must decode");
    assert_eq!(e.data, Some("A\t\"\\/\u{e9}".to_string()));
}

#[test]
fn decode_rejects_malformed_text() {
    assert!(decode_envelope("").is_none());
    assert!(decode_envelope("not json").is_none());
    assert!(decode_envelope("{").is_none());
    assert!(decode_envelope("{\"messageType\":\"users\"").is_none());
    assert!(decode_envelope("{\"messageType\":\"users\",}").is_none());
    assert!(decode_envelope("[\"messageType\"]").is_none());
}

#[test]
fn decode_rejects_missing_or_unknown_discriminator() {
    assert!(decode_envelope("{}").is_none());
    assert!(decode_envelope("{\"data\":\"x\"}").is_none());
    assert!(decode_envelope("{\"messageType\":\"ping\"}").is_none());
    assert!(decode_envelope("{\"messageType\":null}").is_none());
}

#[test]
fn decode_rejects_duplicate_and_unknown_keys() {
    assert!(decode_envelope("{\"messageType\":\"users\",\"messageType\":\"users\"}").is_none());
    assert!(decode_envelope("{\"messageType\":\"users\",\"extra\":\"x\"}").is_none());
    assert!(decode_envelope("{\"messageType\":\"users\",\"data\":null,\"data\":null}").is_none());
}

#[test]
fn decode_rejects_trailing_text_and_bad_escapes() {
    assert!(decode_envelope("{\"messageType\":\"users\"} x").is_none());
    assert!(decode_envelope("{\"messageType\":\"users\",\"data\":\"\\q\"}").is_none());
    assert!(decode_envelope("{\"messageType\":\"users\",\"data\":\"\\ud800\"}").is_none());
    assert!(decode_envelope("{\"messageType\":\"users\",\"data\":\"a\u{01}b\"}").is_none());
}

#[test]
fn decode_rejects_incomplete_message_payload() {
    assert!(decode_message_data("{\"from\":\"a\"}").is_none());
    assert!(decode_message_data("{\"message\":\"m\"}").is_none());
    assert!(decode_message_data("{}").is_none());
    assert!(decode_message_data("{\"from\":\"a\",\"message\":\"m\",\"more\":\"x\"}").is_none());
}

#[test]
fn encoded_envelope_is_valid_json_for_serde() {
    let e = envelope(
        MsgTypes::Message,
        None,
        Some("quote \" backslash \\ newline \n tab \t control \u{02} accent \u{e9}"),
    );
    let text = encode_envelope(&e);
    let v: serde_json::Value = serde_json::from_str(&text).expect("encoder must emit valid JSON");
    assert_eq!(v["messageType"].as_str(), Some("message"));
    assert!(v["dataArray"].is_null());
    assert_eq!(
        v["data"].as_str(),
        Some("quote \" backslash \\ newline \n tab \t control \u{02} accent \u{e9}")
    );
}

#[test]
fn encoded_array_matches_serde_view() {
    let e = envelope(
        MsgTypes::Users,
        Some(vec!["a b".to_string(), "".to_string(), "x\"y".to_string()]),
        None,
    );
    let v: serde_json::Value =
        serde_json::from_str(&encode_envelope(&e)).expect("encoder must emit valid JSON");
    let arr = v["dataArray"].as_array().expect("dataArray must be an array");
    let names: Vec<&str> = arr.iter().map(|x| x.as_str().unwrap()).collect();
    assert_eq!(names, vec!["a b", "", "x\"y"]);
}

#[test]
fn decoder_agrees_with_serde_emitted_text() {
    let mut obj = serde_json::Map::new();
    obj.insert("messageType".to_string(), serde_json::Value::String("message".to_string()));
    obj.insert("dataArray".to_string(), serde_json::Value::Null);
    obj.insert(
        "data".to_string(),
        serde_json::Value::String("line1\nline2 \"quoted\"".to_string()),
    );
    let text = serde_json::to_string(&serde_json::Value::Object(obj)).unwrap();
    let e = decode_envelope(&text).expect("serde-emitted text must decode");
    assert!(matches!(e.message_type, MsgTypes::Message));
    assert_eq!(e.data, Some("line1\nline2 \"quoted\"".to_string()));
}
