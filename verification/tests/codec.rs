//! Tests of the TLV codec: golden wire vectors, the stuffing transform,
//! the JSON payload form, and every error variant.

use tlv::envelope::{
    decode_from_message, decode_message, decode_to_message, encode_message, encode_to_message,
};
use tlv::errors::CodecError;
use tlv::json::{value_from_json, value_to_json};
use tlv::payload::{CompanyCode, MessageValue};
use tlv::registry::{FromMessageType, MessageType, ToMessageType};
use tlv::stuffing::{stuff, unstuff};

#[test]
fn binary_send() {
    let value = MessageValue {
        id: b"01466d6c-496c-4b9d-a34b-c0f1cfc47ca4".to_vec(),
        code: CompanyCode::Company1,
        data: Some(b"extra-data".to_vec()),
    };
    let bytes = encode_to_message(ToMessageType::Message1, &value);
    assert_eq!(bytes, vec![
        0x02, 0x00, 0x00, 0x00, 0x5b, 0x00, 0x00, 0x00, 0x7b, 0x22, 0x69, 0x64, 0x22, 0x3a, 0x22,
        0x30, 0x31, 0x34, 0x36, 0x36, 0x64, 0x36, 0x63, 0x2d, 0x34, 0x39, 0x36, 0x63, 0x2d, 0x34,
        0x62, 0x39, 0x64, 0x2d, 0x61, 0x33, 0x34, 0x62, 0x2d, 0x63, 0x30, 0x66, 0x31, 0x63, 0x66,
        0x63, 0x34, 0x37, 0x63, 0x61, 0x34, 0x22, 0x2c, 0x22, 0x63, 0x6f, 0x6d, 0x70, 0x61, 0x6e,
        0x79, 0x43, 0x6f, 0x64, 0x65, 0x22, 0x3a, 0x22, 0x43, 0x6f, 0x6d, 0x70, 0x61, 0x6e, 0x79,
        0x31, 0x22, 0x2c, 0x22, 0x64, 0x61, 0x74, 0x61, 0x22, 0x3a, 0x22, 0x65, 0x78, 0x74, 0x72,
        0x61, 0x2d, 0x64, 0x61, 0x74, 0x61, 0x22, 0x7d, 0x0d,
    ]);
    let (kind, decoded) = decode_to_message(&bytes).unwrap();
    assert_eq!(kind, ToMessageType::Message1);
    assert_eq!(decoded, value);
}

#[test]
fn binary_receive() {
    let b = vec![
        0x0a, 0x00, 0x00, 0x00, 0x53, 0x00, 0x00, 0x00, 0x7b, 0x22, 0x69, 0x64, 0x22, 0x3a, 0x22,
        0x61, 0x66, 0x30, 0x61, 0x32, 0x30, 0x39, 0x37, 0x2d, 0x38, 0x34, 0x34, 0x33, 0x2d, 0x34,
        0x35, 0x34, 0x35, 0x2d, 0x39, 0x33, 0x61, 0x61, 0x2d, 0x63, 0x36, 0x61, 0x61, 0x35, 0x61,
        0x65, 0x32, 0x35, 0x62, 0x34, 0x61, 0x22, 0x2c, 0x22, 0x63, 0x6f, 0x6d, 0x70, 0x61, 0x6e,
        0x79, 0x43, 0x6f, 0x64, 0x65, 0x22, 0x3a, 0x22, 0x43, 0x6f, 0x6d, 0x70, 0x61, 0x6e, 0x79,
        0x32, 0x22, 0x2c, 0x22, 0x64, 0x61, 0x74, 0x61, 0x22, 0x3a, 0x6e, 0x75, 0x6c, 0x6c, 0x7d,
        0x0d,
    ];
    let (kind, decoded) = decode_from_message(&b).unwrap();
    assert_eq!(kind, FromMessageType::Message6);
    assert_eq!(
        decoded,
        MessageValue {
            id: b"af0a2097-8443-4545-93aa-c6aa5ae25b4a".to_vec(),
            code: CompanyCode::Company2,
            data: None,
        }
    );
}

#[test]
fn binary_send_and_receive() {
    let value = MessageValue {
        id: b"test-id".to_vec(),
        code: CompanyCode::Company1,
        data: None,
    };
    let bytes = encode_message(MessageType::HeartBeat, &value);
    let (kind, decoded) = decode_message(&bytes).unwrap();
    assert_eq!(kind, MessageType::HeartBeat);
    assert_eq!(decoded, value);
}

#[test]
fn send_message_value_format() {
    let message_value = vec![0x01, 0x02, 0x03, 0x04, 0x0d, 0xe, 0x0f, 0x10];
    let formatted = stuff(&message_value);
    assert_eq!(formatted, vec![
        0x01, 0x02, 0x03, 0x04, 0x0e, 0x02, 0x0e, 0x01, 0x0f, 0x10, 0x0d
    ]);
}

#[test]
fn receive_message_value_format() {
    let message_value = vec![0x05, 0x06, 0x0e, 0x02, 0xf0, 0x0d];
    let formatted = unstuff(&message_value).unwrap();
    assert_eq!(formatted, vec![0x05, 0x06, 0x0d, 0xf0]);
}

#[test]
fn serde_json_to_string() {
    let json =
        r#"{"id":"01466d6c-496c-4b9d-a34b-c0f1cfc47ca4","companyCode":"Company1","data":"extra-data"}"#;
    let message_value = value_from_json(json.as_bytes()).unwrap();
    assert_eq!(
        message_value,
        MessageValue {
            id: b"01466d6c-496c-4b9d-a34b-c0f1cfc47ca4".to_vec(),
            code: CompanyCode::Company1,
            data: Some(b"extra-data".to_vec()),
        }
    );
    let json2 = value_to_json(&message_value);
    assert_eq!(json.as_bytes(), json2.as_slice());
}

#[test]
fn stuffing_of_empty_payload() {
    assert_eq!(stuff(&[]), vec![0x0d]);
    assert_eq!(unstuff(&[0x0d]).unwrap(), Vec::<u8>::new());
}

#[test]
fn unstuffing_rejects_malformed_framing() {
    // No terminator at all.
    assert_eq!(unstuff(&[0x05, 0x06]), Err(CodecError::Framing));
    assert_eq!(unstuff(&[]), Err(CodecError::Framing));
    // An escape marker as the last byte of the body.
    assert_eq!(unstuff(&[0x05, 0x0e, 0x0d]), Err(CodecError::Framing));
    // An escape marker with an unrecognized continuation.
    assert_eq!(unstuff(&[0x0e, 0x03, 0x0d]), Err(CodecError::Framing));
}

#[test]
fn truncated_input() {
    // Shorter than the four code bytes.
    assert_eq!(decode_message(&[0x01]), Err(CodecError::Truncated));
    // Code resolved, but shorter than the length field.
    assert_eq!(
        decode_message(&[0x01, 0x00, 0x00, 0x00, 0x02]),
        Err(CodecError::Truncated)
    );
    // Fewer payload bytes than the length field declares.
    assert_eq!(
        decode_message(&[0x01, 0x00, 0x00, 0x00, 0x05, 0x00, 0x00, 0x00, 0x7b, 0x0d]),
        Err(CodecError::Truncated)
    );
}

#[test]
fn bad_terminator() {
    // A declared two-byte payload whose last byte is not the terminator.
    assert_eq!(
        decode_message(&[0x01, 0x00, 0x00, 0x00, 0x02, 0x00, 0x00, 0x00, 0x7b, 0x7d]),
        Err(CodecError::Framing)
    );
}

#[test]
fn unknown_discriminant() {
    let mut bytes = vec![0x63, 0x00, 0x00, 0x00];
    let body = stuff(br#"{"id":"x","companyCode":"TestInfo"}"#);
    bytes.extend_from_slice(&(body.len() as u32).to_le_bytes());
    bytes.extend_from_slice(&body);
    assert_eq!(decode_message(&bytes), Err(CodecError::UnknownMessageType));
    assert_eq!(
        decode_from_message(&bytes),
        Err(CodecError::UnknownMessageType)
    );
    assert_eq!(
        decode_to_message(&bytes),
        Err(CodecError::UnknownMessageType)
    );
}

#[test]
fn optional_data_field() {
    let omitted = value_from_json(br#"{"id":"a","companyCode":"TestInfo"}"#).unwrap();
    assert_eq!(omitted.data, None);
    let null = value_from_json(br#"{"id":"a","companyCode":"TestInfo","data":null}"#).unwrap();
    assert_eq!(null.data, None);
    assert_eq!(omitted, null);
    let present = value_from_json(br#"{"id":"a","companyCode":"TestInfo","data":"x"}"#).unwrap();
    assert_eq!(present.data, Some(b"x".to_vec()));
}

#[test]
fn payload_decode_errors() {
    // Malformed JSON.
    assert_eq!(
        value_from_json(br#"{"id":"a""#),
        Err(CodecError::PayloadDecode)
    );
    // An unknown code label.
    assert_eq!(
        value_from_json(br#"{"id":"a","companyCode":"Company9"}"#),
        Err(CodecError::PayloadDecode)
    );
    // The required identifier missing.
    assert_eq!(
        value_from_json(br#"{"companyCode":"TestInfo"}"#),
        Err(CodecError::PayloadDecode)
    );
    // A repeated field.
    assert_eq!(
        value_from_json(br#"{"id":"a","id":"b","companyCode":"TestInfo"}"#),
        Err(CodecError::PayloadDecode)
    );
}

#[test]
fn json_escapes_round_trip() {
    let value = MessageValue {
        id: vec![0x22, 0x5c, 0x0d, 0x0e, 0x01, b'z'],
        code: CompanyCode::TestInfo,
        data: Some(vec![0x08, 0x0c, 0x0a, 0x09, b'q']),
    };
    let json = value_to_json(&value);
    let back = value_from_json(&json).unwrap();
    assert_eq!(back, value);
    let bytes = encode_message(MessageType::HeartBeat, &value);
    let (kind, decoded) = decode_message(&bytes).unwrap();
    assert_eq!(kind, MessageType::HeartBeat);
    assert_eq!(decoded, value);
}

#[test]
fn json_unicode_escapes() {
    // A two-byte scalar, lower- and upper-case hex.
    let value = value_from_json(br#"{"id":"caf\u00e9","companyCode":"TestInfo"}"#).unwrap();
    assert_eq!(value.id, vec![0x63, 0x61, 0x66, 0xc3, 0xa9]);
    let value = value_from_json(br#"{"id":"\u00C9","companyCode":"TestInfo"}"#).unwrap();
    assert_eq!(value.id, vec![0xc3, 0x89]);
    // A three-byte scalar.
    let value = value_from_json(br#"{"id":"\u20ac","companyCode":"TestInfo"}"#).unwrap();
    assert_eq!(value.id, vec![0xe2, 0x82, 0xac]);
    // A surrogate pair names a four-byte scalar.
    let value = value_from_json(br#"{"id":"\ud83d\ude00","companyCode":"TestInfo"}"#).unwrap();
    assert_eq!(value.id, vec![0xf0, 0x9f, 0x98, 0x80]);
    // Raw UTF-8 bytes pass through unchanged, as the serializer leaves them.
    let value = value_from_json("{\"id\":\"caf\u{e9}\",\"companyCode\":\"TestInfo\"}".as_bytes())
        .unwrap();
    assert_eq!(value.id, "caf\u{e9}".as_bytes().to_vec());
    // A lone surrogate, leading or trailing, names no scalar value.
    assert_eq!(
        value_from_json(br#"{"id":"\ud83d","companyCode":"TestInfo"}"#),
        Err(CodecError::PayloadDecode)
    );
    assert_eq!(
        value_from_json(br#"{"id":"\ude00","companyCode":"TestInfo"}"#),
        Err(CodecError::PayloadDecode)
    );
    // A malformed escape.
    assert_eq!(
        value_from_json(br#"{"id":"\u00g9","companyCode":"TestInfo"}"#),
        Err(CodecError::PayloadDecode)
    );
}

#[test]
fn json_accepts_whitespace_and_any_field_order() {
    let value =
        value_from_json(b"{ \"data\" : \"d\" , \"id\" : \"a\" , \"companyCode\" : \"Company2\" }")
            .unwrap();
    assert_eq!(
        value,
        MessageValue {
            id: b"a".to_vec(),
            code: CompanyCode::Company2,
            data: Some(b"d".to_vec()),
        }
    );
}

#[test]
fn receive_with_escape_pair() {
    // A receive-only envelope whose body carries one 0x0E 0x02 escape pair:
    // a raw carriage return used as JSON whitespace gets stuffed.
    let mut json: Vec<u8> = Vec::new();
    json.extend_from_slice(br#"{"id":"x","companyCode":"Company2","#);
    json.push(0x0d);
    json.extend_from_slice(br#""data":null}"#);
    let body = stuff(&json);
    assert!(body.windows(2).any(|w| w == [0x0e, 0x02]));
    assert_eq!(*body.last().unwrap(), 0x0d);
    let mut bytes = vec![0x0a, 0x00, 0x00, 0x00];
    bytes.extend_from_slice(&(body.len() as u32).to_le_bytes());
    bytes.extend_from_slice(&body);
    let (kind, decoded) = decode_from_message(&bytes).unwrap();
    assert_eq!(kind, FromMessageType::Message6);
    assert_eq!(decoded.id, b"x".to_vec());
    assert_eq!(decoded.data, None);
}

#[test]
fn registry_codes_are_sparse() {
    assert_eq!(MessageType::HeartBeat.code(), 1);
    assert_eq!(FromMessageType::Message1.code(), 5);
    assert_eq!(FromMessageType::Message8.code(), 12);
    assert_eq!(FromMessageType::Message9.code(), 17);
    assert_eq!(ToMessageType::Message3.code(), 4);
    assert_eq!(ToMessageType::Message4.code(), 16);
    assert_eq!(FromMessageType::from_code(13), None);
    assert_eq!(FromMessageType::from_code(17), Some(FromMessageType::Message9));
    assert_eq!(ToMessageType::from_code(5), None);
    assert_eq!(MessageType::from_code(2), None);
}
