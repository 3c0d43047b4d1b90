use discard::codec::{decode_session, encode_session, Session, MAX_SESSION_PAYLOAD};
use discard::errors::ErrorKind;
use discard::signal::{decode_signal, encode_signal, signal_to_run};
use discard::enums::{RunMessage, SessionType, SignalMessage, UserStatus};
use discard::types::{hex_decode, hex_encode, NodeId};

fn node(byte: u8) -> NodeId {
    NodeId::from_bytes(vec![byte; 32]).unwrap()
}

#[test]
fn session_round_trip_both_fields() {
    let s = Session {
        ice_candidate: Some(vec![1, 2, 3]),
        sdp: Some(vec![9, 8, 7, 6]),
    };
    let bytes = encode_session(&s).unwrap();
    let back = decode_session(&bytes).unwrap();
    assert_eq!(back.ice_candidate, Some(vec![1, 2, 3]));
    assert_eq!(back.sdp, Some(vec![9, 8, 7, 6]));
}

#[test]
fn session_round_trip_single_field() {
    let s = Session {
        ice_candidate: None,
        sdp: Some(vec![0xAB; 100]),
    };
    let bytes = encode_session(&s).unwrap();
    let back = decode_session(&bytes).unwrap();
    assert_eq!(back.ice_candidate, None);
    assert_eq!(back.sdp, Some(vec![0xAB; 100]));

    let c = Session {
        ice_candidate: Some(vec![]),
        sdp: None,
    };
    let bytes = encode_session(&c).unwrap();
    let back = decode_session(&bytes).unwrap();
    assert_eq!(back.ice_candidate, Some(vec![]));
    assert_eq!(back.sdp, None);
}

#[test]
fn session_wire_form_is_length_prefixed() {
    let s = Session {
        ice_candidate: Some(vec![0x11, 0x22]),
        sdp: None,
    };
    let bytes = encode_session(&s).unwrap();
    // tag 1, little-endian length 2, the two bytes, then an absent SDP tag.
    assert_eq!(bytes, vec![1, 2, 0, 0, 0, 0x11, 0x22, 0]);
}

#[test]
fn session_empty_payload_rejected() {
    let s = Session {
        ice_candidate: None,
        sdp: None,
    };
    assert_eq!(encode_session(&s).unwrap_err(), ErrorKind::BadPayload);
    // An encoding of two absent fields is refused on the way in as well.
    assert_eq!(decode_session(&vec![0, 0]).unwrap_err(), ErrorKind::BadPayload);
}

#[test]
fn session_payload_boundary() {
    // 6 bytes of framing around the SDP blob: encoded size is blob + 6.
    let at_limit = Session {
        ice_candidate: None,
        sdp: Some(vec![7u8; MAX_SESSION_PAYLOAD - 6]),
    };
    let bytes = encode_session(&at_limit).unwrap();
    assert_eq!(bytes.len(), MAX_SESSION_PAYLOAD);
    assert!(decode_session(&bytes).is_ok());

    let over = Session {
        ice_candidate: None,
        sdp: Some(vec![7u8; MAX_SESSION_PAYLOAD - 5]),
    };
    assert_eq!(encode_session(&over).unwrap_err(), ErrorKind::BadPayload);

    // A 2049-byte wire payload is rejected outright.
    let mut oversize = vec![1u8];
    let n: u32 = (MAX_SESSION_PAYLOAD - 5) as u32;
    oversize.extend_from_slice(&n.to_le_bytes());
    oversize.extend(std::iter::repeat(7u8).take(n as usize));
    oversize.push(0);
    assert_eq!(oversize.len(), MAX_SESSION_PAYLOAD + 1);
    assert_eq!(decode_session(&oversize).unwrap_err(), ErrorKind::BadPayload);
}

#[test]
fn session_trailing_bytes_rejected() {
    let s = Session {
        ice_candidate: None,
        sdp: Some(vec![1]),
    };
    let mut bytes = encode_session(&s).unwrap();
    bytes.push(0);
    assert_eq!(decode_session(&bytes).unwrap_err(), ErrorKind::BadPayload);
}

#[test]
fn signal_round_trip_online() {
    let m = SignalMessage::Online(node(5), UserStatus::Away);
    let bytes = encode_signal(&m).unwrap();
    assert_eq!(bytes.len(), 34);
    match decode_signal(&bytes).unwrap() {
        SignalMessage::Online(n, st) => {
            assert_eq!(n.bytes, vec![5u8; 32]);
            assert_eq!(st, UserStatus::Away);
        }
        other => panic!("wrong variant: {:?}", other),
    }
}

#[test]
fn signal_round_trip_send_connection() {
    let m = SignalMessage::SendConnection(SessionType::Chat);
    let bytes = encode_signal(&m).unwrap();
    assert_eq!(bytes, vec![1, 1]);
    match decode_signal(&bytes).unwrap() {
        SignalMessage::SendConnection(k) => assert_eq!(k, SessionType::Chat),
        other => panic!("wrong variant: {:?}", other),
    }
}

#[test]
fn signal_bad_payload_rejected() {
    assert_eq!(decode_signal(&vec![]).unwrap_err(), ErrorKind::BadPayload);
    assert_eq!(decode_signal(&vec![2, 0]).unwrap_err(), ErrorKind::BadPayload);
    assert_eq!(decode_signal(&vec![1, 9]).unwrap_err(), ErrorKind::BadPayload);
    // A short identity cannot even be built: from_bytes already refuses it.
    assert_eq!(
        NodeId::from_bytes(vec![0; 16]).unwrap_err(),
        ErrorKind::BadPayload
    );
}

#[test]
fn signal_dispatch() {
    match signal_to_run(SignalMessage::SendConnection(SessionType::Chat)) {
        RunMessage::RecvConn(SessionType::Chat) => {}
        other => panic!("wrong dispatch: {:?}", other),
    }
    match signal_to_run(SignalMessage::Online(node(3), UserStatus::Offline)) {
        RunMessage::UpdateStatus(n, UserStatus::Offline) => assert_eq!(n.bytes, vec![3u8; 32]),
        other => panic!("wrong dispatch: {:?}", other),
    }
}

#[test]
fn hex_round_trip() {
    let n = NodeId::from_bytes((0u8..32).collect()).unwrap();
    let hex = n.to_hex();
    assert_eq!(hex.len(), 64);
    assert!(hex.starts_with("000102030405"));
    let back = hex_decode(&hex).unwrap();
    assert_eq!(back, (0u8..32).collect::<Vec<u8>>());
    assert_eq!(hex_encode(&vec![0xde, 0xad, 0xbe, 0xef]), "deadbeef");
    assert!(hex_decode("zz").is_none());
    assert!(hex_decode("abc").is_none());
    assert!(hex_decode("AB").is_none(), "uppercase is not canonical");
}

#[test]
fn short_display_form() {
    let n = NodeId::from_bytes((0u8..32).collect()).unwrap();
    assert_eq!(n.fmt_short(), "0001020304");
}
