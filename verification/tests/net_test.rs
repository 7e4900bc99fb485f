//! Messages and their bytes.

use meerkat_lib::error::Error;
use meerkat_lib::net::codec::{check_name, decode_source_request, decode_source_response, source_reply};
use meerkat_lib::net::messages::{import_message, listen_address, sent_message};
use meerkat_lib::net::protocol::{frame, payload_length, unframe, MEERKAT_PROTOCOL};
use meerkat_lib::net::{Address, MeerkatMessage, MessageId, NetworkCommand, NetworkReply};

#[test]
fn protocol_has_a_name() {
    assert_eq!(MEERKAT_PROTOCOL, "/meerkat/1.0.0");
}

#[test]
fn frames_start_with_the_length() {
    assert_eq!(frame(&vec![]), vec![0, 0, 0, 0]);
    assert_eq!(frame(&vec![7, 8]), vec![0, 0, 0, 2, 7, 8]);
    let long = vec![1u8; 0x1_0203];
    let framed = frame(&long);
    assert_eq!(framed[..4], [0, 1, 2, 3]);
    assert_eq!(framed.len(), 4 + 0x1_0203);
    assert_eq!(payload_length([0, 1, 2, 3]), 0x1_0203);
    assert_eq!(payload_length([255, 255, 255, 255]), u32::MAX);
}

#[test]
fn unframing_gives_the_message_back() {
    let data: Vec<u8> = (0..=255).collect();
    let mut stream = frame(&data);
    stream.extend([9, 9, 9]);
    assert_eq!(unframe(&stream), Some(data));
    assert_eq!(unframe(&vec![0, 0, 0]), None);
    assert_eq!(unframe(&vec![0, 0, 0, 2, 5]), None);
    assert_eq!(unframe(&vec![0, 0, 0, 0]), Some(vec![]));
}

#[test]
fn names_are_checked() {
    assert!(check_name("B"));
    assert!(check_name("_b9"));
    assert!(!check_name(""));
    assert!(!check_name("9b"));
    assert!(!check_name("a.b"));
    assert!(!check_name(&"a".repeat(65)));
    assert!(check_name(&"a".repeat(64)));
}

#[test]
fn bad_responses_exceed_limits() {
    assert_eq!(
        decode_source_response("../B.mkt", ""),
        Err(Error::LimitExceeded(
            "invalid service path in source response".to_string()
        ))
    );
    assert_eq!(
        decode_source_response("B.mkt", &"a".repeat(1_048_577)),
        Err(Error::LimitExceeded(
            "source in response is too long".to_string()
        ))
    );
    assert!(decode_source_response("B.mkt", &"a".repeat(1_048_576)).is_ok());
}

#[test]
fn requests_name_a_file() {
    assert_eq!(
        decode_source_request("B.mkt", "/a"),
        Some("B.mkt".to_string())
    );
    assert_eq!(
        decode_source_request("B", "/a"),
        Some("B.mkt".to_string())
    );
    assert_eq!(decode_source_request("a/../B", "/a"), None);
    assert_eq!(decode_source_request("B", &"x".repeat(4097)), None);
}

#[test]
fn replies_carry_the_source_or_the_error() {
    assert_eq!(
        source_reply(4, "B.mkt", Ok("service B {}".to_string())),
        MeerkatMessage::ServiceCodeResponse {
            request_id: 4,
            path: "B.mkt".to_string(),
            source: "service B {}".to_string(),
        }
    );
    assert_eq!(
        source_reply(4, "B.mkt", Err("gone".to_string())),
        MeerkatMessage::ServiceCodeError {
            request_id: 4,
            error: "gone".to_string(),
        }
    );
}

#[test]
fn network_replies_are_read() {
    let sent = NetworkReply::MessageSent {
        msg_id: MessageId(3),
    };
    assert_eq!(sent_message(sent), Ok(MessageId(3)));
    assert_eq!(
        sent_message(NetworkReply::Failure("down".to_string())),
        Err(Error::Message("Send failed: down".to_string()))
    );
    assert_eq!(
        sent_message(NetworkReply::LocalAddresses { addrs: Vec::new() }),
        Err(Error::Message(
            "Unexpected reply from SendMessage command".to_string()
        ))
    );
    let listening = NetworkReply::ListenSuccess {
        addr: Address::new("/ip4/127.0.0.1/tcp/1"),
    };
    assert_eq!(
        listen_address(listening, "me"),
        Ok("/ip4/127.0.0.1/tcp/1/p2p/me".to_string())
    );
    assert_eq!(
        listen_address(NetworkReply::Failure("busy".to_string()), "me"),
        Err(Error::Message("Failed to listen: busy".to_string()))
    );
    assert_eq!(
        listen_address(
            NetworkReply::MessageSent {
                msg_id: MessageId(1)
            },
            "me"
        ),
        Err(Error::Message(
            "Unexpected reply from Listen command".to_string()
        ))
    );
}

#[test]
fn only_messages_are_imported() {
    let msg = MeerkatMessage::ServiceCodeError {
        request_id: 1,
        error: "e".to_string(),
    };
    let cmd = NetworkCommand::SendMessage {
        addr: Address::new("/a"),
        msg,
    };
    assert!(import_message(cmd).is_ok());
    let listen = NetworkCommand::Listen {
        addr: Address::new("/a"),
    };
    assert_eq!(
        import_message(listen),
        Err(Error::Message(
            "Unexpected non-SendMessage command for import registration".to_string()
        ))
    );
}
