use yewchat::codec::{decode_message_data, decode_ws, encode_ws, DecodeError, MsgTypes, WebSocketMessage};

#[test]
fn decode_users_frame() {
    let r = decode_ws(r#"{"messageType":"users","dataArray":["alice","bob"],"data":null}"#);
    let w = r.unwrap();
    assert!(matches!(w.message_type, MsgTypes::Users));
    assert_eq!(w.data_array, Some(vec!["alice".to_string(), "bob".to_string()]));
    assert_eq!(w.data, None);
}

#[test]
fn decode_users_frame_empty_array() {
    let r = decode_ws(r#"{"messageType":"users","dataArray":[],"data":null}"#);
    let w = r.unwrap();
    assert!(matches!(w.message_type, MsgTypes::Users));
    assert_eq!(w.data_array, Some(vec![]));
}

#[test]
fn decode_register_frame() {
    let r = decode_ws(r#"{"messageType":"register","dataArray":null,"data":"alice"}"#);
    let w = r.unwrap();
    assert!(matches!(w.message_type, MsgTypes::Register));
    assert_eq!(w.data_array, None);
    assert_eq!(w.data, Some("alice".to_string()));
}

#[test]
fn decode_message_frame_with_nested_record() {
    let raw = r#"{"messageType":"message","dataArray":null,"data":"{\"from\":\"bob\",\"message\":\"hi\"}"}"#;
    let w = decode_ws(raw).unwrap();
    assert!(matches!(w.message_type, MsgTypes::Message));
    let data = w.data.unwrap();
    assert_eq!(data, r#"{"from":"bob","message":"hi"}"#);
    let md = decode_message_data(&data).unwrap();
    assert_eq!(md.from, "bob");
    assert_eq!(md.message, "hi");
}

#[test]
fn decode_tolerates_whitespace() {
    let raw = "  {\n  \"messageType\" : \"users\" ,\n  \"dataArray\" : [ \"a\" , \"b\" ] ,\n  \"data\" : null\n}  ";
    let w = decode_ws(raw).unwrap();
    assert!(matches!(w.message_type, MsgTypes::Users));
    assert_eq!(w.data_array, Some(vec!["a".to_string(), "b".to_string()]));
}

#[test]
fn decode_unescapes_strings() {
    let raw = r#"{"messageType":"register","dataArray":null,"data":"a\"b\\c\/d\ne\tf\rg\bh\fi"}"#;
    let w = decode_ws(raw).unwrap();
    assert_eq!(
        w.data,
        Some("a\"b\\c/d\ne\tf\rg\u{0008}h\u{000C}i".to_string())
    );
}

#[test]
fn decode_rejects_unknown_tag() {
    let r = decode_ws(r#"{"messageType":"nonsense","dataArray":null,"data":null}"#);
    assert_eq!(r.unwrap_err(), DecodeError::UnknownTag);
}

#[test]
fn decode_rejects_malformed_frames() {
    assert_eq!(decode_ws("").unwrap_err(), DecodeError::Syntax);
    assert_eq!(decode_ws("garbage").unwrap_err(), DecodeError::Syntax);
    // missing discriminant key
    assert_eq!(
        decode_ws(r#"{"dataArray":null,"data":null}"#).unwrap_err(),
        DecodeError::Syntax
    );
    // mistyped payload: dataArray is not an array
    assert_eq!(
        decode_ws(r#"{"messageType":"users","dataArray":"alice","data":null}"#).unwrap_err(),
        DecodeError::Syntax
    );
    // unterminated string
    assert_eq!(
        decode_ws(r#"{"messageType":"register","dataArray":null,"data":"oops}"#).unwrap_err(),
        DecodeError::Syntax
    );
    // unsupported escape
    assert_eq!(
        decode_ws(r#"{"messageType":"register","dataArray":null,"data":"\u0041"}"#).unwrap_err(),
        DecodeError::Syntax
    );
    // trailing garbage after the closing brace
    assert_eq!(
        decode_ws(r#"{"messageType":"users","dataArray":null,"data":null}x"#).unwrap_err(),
        DecodeError::Syntax
    );
}

#[test]
fn decode_message_data_rejects_malformed_records() {
    assert_eq!(decode_message_data("hi").unwrap_err(), DecodeError::Syntax);
    assert_eq!(
        decode_message_data(r#"{"from":"bob"}"#).unwrap_err(),
        DecodeError::Syntax
    );
    assert_eq!(
        decode_message_data(r#"{"message":"hi","from":"bob"}"#).unwrap_err(),
        DecodeError::Syntax
    );
}

#[test]
fn decode_message_data_tolerates_whitespace() {
    let md = decode_message_data(" { \"from\" : \"bob\" , \"message\" : \"hi there\" } ").unwrap();
    assert_eq!(md.from, "bob");
    assert_eq!(md.message, "hi there");
}

#[test]
fn encode_register_frame_exactly() {
    let w = WebSocketMessage {
        message_type: MsgTypes::Register,
        data_array: None,
        data: Some("alice".to_string()),
    };
    assert_eq!(
        encode_ws(&w),
        r#"{"messageType":"register","dataArray":null,"data":"alice"}"#
    );
}

#[test]
fn encode_users_frame_exactly() {
    let w = WebSocketMessage {
        message_type: MsgTypes::Users,
        data_array: Some(vec!["alice".to_string(), "bob".to_string()]),
        data: None,
    };
    assert_eq!(
        encode_ws(&w),
        r#"{"messageType":"users","dataArray":["alice","bob"],"data":null}"#
    );
}

#[test]
fn encode_escapes_strings() {
    let w = WebSocketMessage {
        message_type: MsgTypes::Message,
        data_array: None,
        data: Some("say \"hi\"\\\n".to_string()),
    };
    assert_eq!(
        encode_ws(&w),
        r#"{"messageType":"message","dataArray":null,"data":"say \"hi\"\\\n"}"#
    );
}

#[test]
fn encode_then_decode_returns_the_envelope() {
    let w = WebSocketMessage {
        message_type: MsgTypes::Users,
        data_array: Some(vec!["a \"quoted\" name".to_string(), "tab\there".to_string(), String::new()]),
        data: Some("line\nbreak \\ and / slash".to_string()),
    };
    let frame = encode_ws(&w);
    let back = decode_ws(&frame).unwrap();
    assert!(matches!(back.message_type, MsgTypes::Users));
    assert_eq!(back.data_array, w.data_array);
    assert_eq!(back.data, w.data);
}
