use delta_lima::codec::{encode_packet, decode_packet, decode_expected, invalid_data_reply,
    DecodeError};
use delta_lima::packet::{Packet, ExpectedPacket, SentMsg, packet_accepted};

fn enc(p: &Packet) -> Vec<u8> {
    encode_packet(p).expect("every test packet fits its length prefixes")
}

#[test]
fn ping_round_trip() {
    let bytes = enc(&Packet::Ping { version: "0.1.1".to_string(), disconnecting: false });
    match decode_packet(&bytes) {
        Ok(Packet::Ping { version, disconnecting }) => {
            assert_eq!(version, "0.1.1");
            assert!(!disconnecting);
        },
        other => panic!("expected a ping back, got {:?}", other.is_ok()),
    }
}

#[test]
fn ping_response_round_trip() {
    let bytes = enc(&Packet::PingResponse { valid: true, accepted_version: "0.1.1".to_string() });
    match decode_packet(&bytes) {
        Ok(Packet::PingResponse { valid, accepted_version }) => {
            assert!(valid);
            assert_eq!(accepted_version, "0.1.1");
        },
        _ => panic!("expected a ping response back"),
    }
}

#[test]
fn login_request_round_trip() {
    let bytes = enc(
        &Packet::LoginRequest {
            username: "skepz".to_string(),
            password: "test".to_string(),
            signup: true,
        },
    );
    match decode_packet(&bytes) {
        Ok(Packet::LoginRequest { username, password, signup }) => {
            assert_eq!(username, "skepz");
            assert_eq!(password, "test");
            assert!(signup);
        },
        _ => panic!("expected a login request back"),
    }
}

#[test]
fn login_response_with_error_round_trip() {
    let bytes = enc(
        &Packet::LoginResponse {
            valid: false,
            error: Some("Invalid login credentials".to_string()),
        },
    );
    match decode_packet(&bytes) {
        Ok(Packet::LoginResponse { valid, error }) => {
            assert!(!valid);
            assert_eq!(error.as_deref(), Some("Invalid login credentials"));
        },
        _ => panic!("expected a login response back"),
    }
}

#[test]
fn login_response_without_error_round_trip() {
    let bytes = enc(&Packet::LoginResponse { valid: true, error: None });
    match decode_packet(&bytes) {
        Ok(Packet::LoginResponse { valid, error }) => {
            assert!(valid);
            assert!(error.is_none());
        },
        _ => panic!("expected a login response back"),
    }
}

#[test]
fn message_round_trip_keeps_every_field() {
    let bytes = enc(
        &Packet::Message {
            message: "héllo, wörld".to_string(),
            sender: "alice".to_string(),
            recipient: "bob".to_string(),
            timestamp: "1700000000".to_string(),
        },
    );
    match decode_packet(&bytes) {
        Ok(Packet::Message { message, sender, recipient, timestamp }) => {
            assert_eq!(message, "héllo, wörld");
            assert_eq!(sender, "alice");
            assert_eq!(recipient, "bob");
            assert_eq!(timestamp, "1700000000");
        },
        _ => panic!("expected a message back"),
    }
}

#[test]
fn msg_history_round_trip_keeps_order() {
    let history = vec![
        SentMsg {
            message: "first".to_string(),
            sender: "alice".to_string(),
            timestamp: "1".to_string(),
        },
        SentMsg {
            message: "second".to_string(),
            sender: "bob".to_string(),
            timestamp: "2".to_string(),
        },
    ];
    let bytes = enc(&Packet::MsgHistory { history });
    match decode_packet(&bytes) {
        Ok(Packet::MsgHistory { history }) => {
            assert_eq!(history.len(), 2);
            assert_eq!(history[0].message, "first");
            assert_eq!(history[0].sender, "alice");
            assert_eq!(history[0].timestamp, "1");
            assert_eq!(history[1].message, "second");
            assert_eq!(history[1].sender, "bob");
            assert_eq!(history[1].timestamp, "2");
        },
        _ => panic!("expected a history back"),
    }
}

#[test]
fn disconnect_and_error_round_trip() {
    let bytes = enc(&Packet::Disconnect);
    assert!(matches!(decode_packet(&bytes), Ok(Packet::Disconnect)));

    let bytes = enc(&Packet::Error { should_disconnect: true, error: "boom".to_string() });
    match decode_packet(&bytes) {
        Ok(Packet::Error { should_disconnect, error }) => {
            assert!(should_disconnect);
            assert_eq!(error, "boom");
        },
        _ => panic!("expected an error packet back"),
    }
}

#[test]
fn info_packets_round_trip() {
    let bytes = enc(&Packet::UserExistsRequest { username: "carol".to_string() });
    match decode_packet(&bytes) {
        Ok(Packet::UserExistsRequest { username }) => assert_eq!(username, "carol"),
        _ => panic!("expected a user-exists request back"),
    }
    let bytes = enc(&Packet::UserOnlineRequest { username: "carol".to_string() });
    assert!(matches!(decode_packet(&bytes), Ok(Packet::UserOnlineRequest { .. })));
    let bytes = enc(&Packet::UserResponse { response: true });
    assert!(matches!(decode_packet(&bytes), Ok(Packet::UserResponse { response: true })));
    let bytes = enc(&Packet::MsgHistoryRequest { username: "carol".to_string() });
    assert!(matches!(decode_packet(&bytes), Ok(Packet::MsgHistoryRequest { .. })));
}

#[test]
fn empty_frame_is_malformed() {
    let bytes: Vec<u8> = Vec::new();
    assert!(matches!(decode_packet(&bytes), Err(DecodeError::Malformed)));
}

#[test]
fn unknown_tag_is_malformed_not_a_crash() {
    let bytes: Vec<u8> = vec![99u8];
    assert!(matches!(decode_packet(&bytes), Err(DecodeError::Malformed)));
}

#[test]
fn truncated_frame_is_malformed() {
    let mut bytes = enc(&Packet::Ping { version: "0.1.1".to_string(), disconnecting: false });
    bytes.pop();
    assert!(matches!(decode_packet(&bytes), Err(DecodeError::Malformed)));
}

#[test]
fn trailing_bytes_are_malformed() {
    let mut bytes = enc(&Packet::Disconnect);
    bytes.push(0u8);
    assert!(matches!(decode_packet(&bytes), Err(DecodeError::Malformed)));
}

#[test]
fn bad_boolean_byte_is_malformed() {
    // a user response whose boolean byte is neither 0 nor 1
    let bytes: Vec<u8> = vec![8u8, 2u8];
    assert!(matches!(decode_packet(&bytes), Err(DecodeError::Malformed)));
}

#[test]
fn invalid_utf8_text_is_malformed() {
    // a user-exists request claiming one byte of text that is not UTF-8
    let bytes: Vec<u8> = vec![6u8, 1, 0, 0, 0, 0xFF];
    assert!(matches!(decode_packet(&bytes), Err(DecodeError::Malformed)));
}

#[test]
fn unexpected_kind_is_an_error_not_a_packet() {
    // a decodable ping handed to an expecting-login-request call, as
    // happens when a client misbehaves during authentication
    let bytes = enc(&Packet::Ping { version: "0.1.1".to_string(), disconnecting: false });
    assert!(matches!(
        decode_expected(&bytes, ExpectedPacket::LoginRequest),
        Err(DecodeError::Unexpected)
    ));
}

#[test]
fn expected_kind_decodes() {
    let bytes = enc(
        &Packet::LoginRequest {
            username: "ab".to_string(),
            password: "pw".to_string(),
            signup: false,
        },
    );
    assert!(matches!(
        decode_expected(&bytes, ExpectedPacket::LoginRequest),
        Ok(Packet::LoginRequest { .. })
    ));
}

#[test]
fn relay_expectation_is_a_catch_all() {
    for p in [
        Packet::Message {
            message: "m".to_string(),
            sender: "s".to_string(),
            recipient: "r".to_string(),
            timestamp: "t".to_string(),
        },
        Packet::Disconnect,
        Packet::Error { should_disconnect: false, error: "e".to_string() },
        Packet::UserExistsRequest { username: "u".to_string() },
        Packet::UserOnlineRequest { username: "u".to_string() },
        Packet::UserResponse { response: false },
        Packet::MsgHistoryRequest { username: "u".to_string() },
        Packet::MsgHistory { history: Vec::new() },
    ] {
        assert!(packet_accepted(ExpectedPacket::Message, &p));
        let bytes = enc(&p);
        assert!(decode_expected(&bytes, ExpectedPacket::Message).is_ok());
    }
    for p in [
        Packet::Ping { version: "v".to_string(), disconnecting: false },
        Packet::PingResponse { valid: true, accepted_version: "v".to_string() },
        Packet::LoginRequest {
            username: "u".to_string(),
            password: "p".to_string(),
            signup: false,
        },
        Packet::LoginResponse { valid: true, error: None },
    ] {
        assert!(!packet_accepted(ExpectedPacket::Message, &p));
        let bytes = enc(&p);
        assert!(matches!(
            decode_expected(&bytes, ExpectedPacket::Message),
            Err(DecodeError::Unexpected)
        ));
    }
}

#[test]
fn courtesy_reply_demands_disconnect() {
    match invalid_data_reply() {
        Packet::Error { should_disconnect, error } => {
            assert!(should_disconnect);
            assert_eq!(error, "Invalid data received!");
        },
        _ => panic!("expected an error packet"),
    }
}
