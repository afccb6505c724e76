use print_dispatch::mqtt::MqttPrintMessage;

#[test]
fn decodes_valid_payload() {
    let raw = br#"{"host":"192.168.1.5","port":9001,"message":[94,88,65]}"#;
    let msg = MqttPrintMessage::decode(raw).unwrap();
    assert_eq!(msg.host, "192.168.1.5");
    assert_eq!(msg.port, 9001);
    assert_eq!(msg.message, vec![0x5e, 0x58, 0x41]);
    assert_eq!(msg.host_and_port(), "192.168.1.5:9001");
}

#[test]
fn field_order_is_free() {
    let raw = br#"{"message":[1,2],"port":7,"host":"h"}"#;
    let msg = MqttPrintMessage::decode(raw).unwrap();
    assert_eq!(msg.host, "h");
    assert_eq!(msg.port, 7);
    assert_eq!(msg.message, vec![1, 2]);
}

#[test]
fn whitespace_is_insignificant() {
    let raw = b" {\n\t\"host\" : \"h\" ,\r\n \"port\" : 0 , \"message\" : [ 10 , 20 ] }\n";
    let msg = MqttPrintMessage::decode(raw).unwrap();
    assert_eq!(msg.host, "h");
    assert_eq!(msg.port, 0);
    assert_eq!(msg.message, vec![10, 20]);
    assert_eq!(msg.host_and_port(), "h:0");
}

#[test]
fn empty_message_array_is_valid() {
    let raw = br#"{"host":"h","port":1,"message":[]}"#;
    let msg = MqttPrintMessage::decode(raw).unwrap();
    assert_eq!(msg.message, Vec::<u8>::new());
}

#[test]
fn unknown_members_are_ignored() {
    let raw = br#"{"host":"h","extra":1,"port":1,"message":[1]}"#;
    let msg = MqttPrintMessage::decode(raw).unwrap();
    assert_eq!(msg.host, "h");
    assert_eq!(msg.port, 1);
    assert_eq!(msg.message, vec![1]);

    let mut nested: Vec<u8> =
        br#"{"a":"s","b":-1.5e-3,"c":[1,["x"],{}],"d":{"e":null,"f":[true,false]},"#.to_vec();
    nested.extend_from_slice(br#""host":"h","port":2,"message":[7]}"#);
    let msg = MqttPrintMessage::decode(&nested).unwrap();
    assert_eq!(msg.host, "h");
    assert_eq!(msg.port, 2);
    assert_eq!(msg.message, vec![7]);
}

#[test]
fn unknown_member_must_still_be_valid_json() {
    assert!(
        MqttPrintMessage::decode(br#"{"host":"h","port":1,"message":[1],"extra":01}"#).is_err()
    );
    assert!(MqttPrintMessage::decode(br#"{"host":"h","port":1,"message":[1],"extra":}"#).is_err());
    assert!(
        MqttPrintMessage::decode(br#"{"host":"h","port":1,"message":[1],"extra":[1,]}"#).is_err()
    );
}

#[test]
fn decodes_escaped_strings() {
    let raw = br#"{"host":"a\"b\\c\/d\n\t","port":1,"message":[]}"#;
    let msg = MqttPrintMessage::decode(raw).unwrap();
    assert_eq!(msg.host, "a\"b\\c/d\n\t");
}

#[test]
fn decodes_unicode_escapes() {
    let raw = br#"{"host":"\u0041\u00e9\u20ac","port":1,"message":[]}"#;
    let msg = MqttPrintMessage::decode(raw).unwrap();
    assert_eq!(msg.host, "A\u{e9}\u{20ac}");
}

#[test]
fn decodes_non_ascii_host() {
    let raw = "{\"host\":\"caf\u{e9}\",\"port\":9001,\"message\":[1]}";
    let msg = MqttPrintMessage::decode(raw.as_bytes()).unwrap();
    assert_eq!(msg.host, "caf\u{e9}");
    assert_eq!(msg.host_and_port(), "caf\u{e9}:9001");
}

#[test]
fn rejects_lone_surrogate_escape() {
    assert!(MqttPrintMessage::decode(br#"{"host":"\ud800","port":1,"message":[]}"#).is_err());
}

#[test]
fn escaped_key_names_its_field() {
    let raw = br#"{"\u0068ost":"h","port":1,"message":[]}"#;
    let msg = MqttPrintMessage::decode(raw).unwrap();
    assert_eq!(msg.host, "h");
}

#[test]
fn rejects_unknown_escape() {
    assert!(MqttPrintMessage::decode(br#"{"host":"\q","port":1,"message":[]}"#).is_err());
}

#[test]
fn rejects_raw_control_byte_in_string() {
    let mut raw: Vec<u8> = br#"{"host":"a"#.to_vec();
    raw.push(0x01);
    raw.extend_from_slice(br#"b","port":1,"message":[]}"#);
    assert!(MqttPrintMessage::decode(&raw).is_err());
}

#[test]
fn rejects_invalid_utf8_inside_string() {
    let mut raw: Vec<u8> = br#"{"host":"a"#.to_vec();
    raw.push(0xff);
    raw.extend_from_slice(br#"b","port":1,"message":[]}"#);
    assert!(MqttPrintMessage::decode(&raw).is_err());
}

#[test]
fn rejects_missing_field() {
    assert!(MqttPrintMessage::decode(br#"{"host":"h","port":1}"#).is_err());
    assert!(MqttPrintMessage::decode(br#"{"host":"h","message":[1]}"#).is_err());
    assert!(MqttPrintMessage::decode(br#"{"port":1,"message":[1]}"#).is_err());
    assert!(MqttPrintMessage::decode(br#"{}"#).is_err());
}

#[test]
fn rejects_wrong_field_type() {
    assert!(MqttPrintMessage::decode(br#"{"host":7,"port":1,"message":[1]}"#).is_err());
    assert!(MqttPrintMessage::decode(br#"{"host":"h","port":"1","message":[1]}"#).is_err());
    assert!(MqttPrintMessage::decode(br#"{"host":"h","port":1,"message":"x"}"#).is_err());
}

#[test]
fn rejects_out_of_range_port() {
    assert!(MqttPrintMessage::decode(br#"{"host":"h","port":65536,"message":[1]}"#).is_err());
    assert!(MqttPrintMessage::decode(br#"{"host":"h","port":123456789,"message":[1]}"#).is_err());
}

#[test]
fn accepts_port_bounds() {
    let msg = MqttPrintMessage::decode(br#"{"host":"h","port":65535,"message":[1]}"#).unwrap();
    assert_eq!(msg.port, 65535);
}

#[test]
fn rejects_message_byte_over_255() {
    assert!(MqttPrintMessage::decode(br#"{"host":"h","port":1,"message":[256]}"#).is_err());
}

#[test]
fn accepts_message_byte_bounds() {
    let msg = MqttPrintMessage::decode(br#"{"host":"h","port":1,"message":[0,255]}"#).unwrap();
    assert_eq!(msg.message, vec![0, 255]);
}

#[test]
fn rejects_duplicate_field() {
    assert!(
        MqttPrintMessage::decode(br#"{"host":"h","host":"g","port":1,"message":[1]}"#).is_err()
    );
}

#[test]
fn rejects_leading_zero_port() {
    assert!(MqttPrintMessage::decode(br#"{"host":"h","port":09001,"message":[1]}"#).is_err());
}

#[test]
fn rejects_trailing_garbage() {
    assert!(MqttPrintMessage::decode(br#"{"host":"h","port":1,"message":[1]}x"#).is_err());
}

#[test]
fn rejects_truncated_payload() {
    assert!(MqttPrintMessage::decode(br#"{"host":"h","port":1,"message":[1]"#).is_err());
}

#[test]
fn rejects_non_text_bytes() {
    let raw: Vec<u8> = vec![0xff, 0xfe, 0x00];
    assert!(MqttPrintMessage::decode(&raw).is_err());
}

#[test]
fn rejects_empty_input() {
    assert!(MqttPrintMessage::decode(b"").is_err());
    assert!(MqttPrintMessage::decode(b"   ").is_err());
}

#[test]
fn rejects_non_object_payload() {
    assert!(MqttPrintMessage::decode(br#"["h",1,[1]]"#).is_err());
    assert!(MqttPrintMessage::decode(br#""host""#).is_err());
}

#[test]
fn no_partial_message_on_failure() {
    // All-or-nothing: two valid fields and one bad one reject the whole payload.
    let raw = br#"{"host":"h","port":1,"message":[1,bad]}"#;
    assert!(MqttPrintMessage::decode(raw).is_err());
}
