use yew_chat::envelope::{
    decode, decode_message_data, encode, DecodeError, MsgTypes, WebSocketMessage,
};

fn envelope(t: MsgTypes, list: Option<Vec<&str>>, data: Option<&str>) -> WebSocketMessage {
    WebSocketMessage {
        message_type: t,
        data_array: list.map(|l| l.into_iter().map(|s| s.to_string()).collect()),
        data: data.map(|s| s.to_string()),
    }
}

fn same(a: &WebSocketMessage, b: &WebSocketMessage) -> bool {
    a.message_type == b.message_type && a.data_array == b.data_array && a.data == b.data
}

#[test]
fn encode_register_text() {
    let e = envelope(MsgTypes::Register, None, Some("carol"));
    assert_eq!(
        encode(&e),
        "{\"messageType\":\"register\",\"dataArray\":null,\"data\":\"carol\"}"
    );
}

#[test]
fn encode_users_text() {
    let e = envelope(MsgTypes::Users, Some(vec!["alice", "bob"]), None);
    assert_eq!(
        encode(&e),
        "{\"messageType\":\"users\",\"dataArray\":[\"alice\",\"bob\"],\"data\":null}"
    );
    let empty = envelope(MsgTypes::Users, Some(vec![]), None);
    assert_eq!(
        encode(&empty),
        "{\"messageType\":\"users\",\"dataArray\":[],\"data\":null}"
    );
}

#[test]
fn encode_escapes_special_characters() {
    let e = envelope(MsgTypes::Message, None, Some("a\"b\\c\nd"));
    assert_eq!(
        encode(&e),
        "{\"messageType\":\"message\",\"dataArray\":null,\"data\":\"a\\\"b\\\\c\\u000ad\"}"
    );
}

#[test]
fn round_trip_many_envelopes() {
    let cases = vec![
        envelope(MsgTypes::Register, None, Some("carol")),
        envelope(MsgTypes::Users, Some(vec!["alice", "bob"]), None),
        envelope(MsgTypes::Users, None, None),
        envelope(MsgTypes::Users, Some(vec![]), Some("")),
        envelope(MsgTypes::Message, Some(vec!["x\u{1}y", "é✓"]), Some("{\"from\":\"a\"}")),
        envelope(MsgTypes::Message, None, Some("tab\there \u{1f600}")),
    ];
    for e in cases.iter() {
        let d = decode(&encode(e)).ok().expect("decodes");
        assert!(same(&d, e));
    }
}

#[test]
fn decode_accepts_whitespace_and_any_member_order() {
    let d = decode(" {\n \"data\" : \"x\" ,\t\"messageType\":\"message\" } ")
        .ok()
        .expect("decodes");
    assert!(d.message_type == MsgTypes::Message);
    assert_eq!(d.data, Some("x".to_string()));
    assert_eq!(d.data_array, None);
}

#[test]
fn decode_reads_escapes() {
    let d = decode("{\"messageType\":\"register\",\"data\":\"\\u0041\\n\\/\\t\\\"\"}")
        .ok()
        .expect("decodes");
    assert_eq!(d.data, Some("A\n/\t\"".to_string()));
}

#[test]
fn decode_ignores_other_members() {
    let d = decode("{\"id\":null,\"messageType\":\"users\",\"tags\":[\"a\"],\"dataArray\":[\"z\"]}")
        .ok()
        .expect("decodes");
    assert!(d.message_type == MsgTypes::Users);
    assert_eq!(d.data_array, Some(vec!["z".to_string()]));
}

#[test]
fn decode_refuses_unknown_or_missing_type() {
    for t in [
        "{\"messageType\":\"typing\",\"data\":\"x\"}",
        "{\"messageType\":\"Users\"}",
        "{\"data\":\"x\"}",
        "{\"messageType\":null}",
        "{}",
    ] {
        assert!(matches!(decode(t), Err(DecodeError::MalformedEnvelope)), "{}", t);
    }
}

#[test]
fn decode_refuses_malformed_text() {
    for t in [
        "",
        "not json",
        "{\"messageType\":\"users\"",
        "{\"messageType\":\"users\"} x",
        "[\"users\"]",
        "{\"messageType\":\"users\",}",
        "{\"messageType\":\"register\",\"data\":\"\\x\"}",
        "{\"messageType\":\"register\",\"data\":\"a\nb\"}",
        "{\"messageType\":\"register\",\"data\":\"\\ud800\"}",
    ] {
        assert!(matches!(decode(t), Err(DecodeError::MalformedEnvelope)), "{}", t);
    }
}

#[test]
fn decode_refuses_fields_of_the_wrong_kind() {
    assert!(matches!(
        decode("{\"messageType\":\"users\",\"dataArray\":\"alice\"}"),
        Err(DecodeError::MalformedEnvelope)
    ));
    assert!(matches!(
        decode("{\"messageType\":\"message\",\"data\":[\"hi\"]}"),
        Err(DecodeError::MalformedEnvelope)
    ));
}

#[test]
fn decode_message_payload() {
    let m = decode_message_data("{\"from\":\"alice\",\"message\":\"hi\"}")
        .ok()
        .expect("decodes");
    assert_eq!(m.from, "alice");
    assert_eq!(m.message, "hi");
}

#[test]
fn decode_message_payload_missing_field() {
    assert!(matches!(
        decode_message_data("{\"from\":\"alice\"}"),
        Err(DecodeError::MalformedPayload)
    ));
    assert!(matches!(
        decode_message_data("{\"message\":\"hi\"}"),
        Err(DecodeError::MalformedPayload)
    ));
    assert!(matches!(
        decode_message_data("hello"),
        Err(DecodeError::MalformedPayload)
    ));
}
