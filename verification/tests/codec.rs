use signaling::codec::{decode, encode, DecodeError};
use signaling::envelope::{Candidate, Envelope, Payload, SdpKind, SessionDescription};

fn sd(kind: SdpKind, sdp: &str) -> SessionDescription {
    SessionDescription { kind, sdp: sdp.to_string() }
}

fn round_trips(e: &Envelope) {
    let frame = encode(e);
    let back = decode(&frame).expect("canonical frame must decode");
    assert_eq!(&back, e);
}

#[test]
fn encode_login_is_bare_object() {
    let e = Envelope { peer_id: "alice".to_string(), payload: Payload::Login };
    assert_eq!(encode(&e), "{\"username\":\"alice\"}");
}

#[test]
fn encode_offer_matches_wire_shape() {
    let e = Envelope {
        peer_id: "bob".to_string(),
        payload: Payload::Offer(sd(SdpKind::Offer, "v=0")),
    };
    assert_eq!(
        encode(&e),
        "{\"username\":\"bob\",\"offer\":{\"type\":\"offer\",\"sdp\":\"v=0\"}}"
    );
}

#[test]
fn encode_escapes_sdp_line_breaks() {
    let e = Envelope {
        peer_id: "bob".to_string(),
        payload: Payload::Answer(sd(SdpKind::Answer, "v=0\r\ns=-\r\n")),
    };
    assert_eq!(
        encode(&e),
        "{\"username\":\"bob\",\"answer\":{\"type\":\"answer\",\"sdp\":\"v=0\\r\\ns=-\\r\\n\"}}"
    );
}

#[test]
fn round_trip_login() {
    round_trips(&Envelope { peer_id: "alice".to_string(), payload: Payload::Login });
}

#[test]
fn round_trip_offer_with_escapes() {
    round_trips(&Envelope {
        peer_id: "a \"quoted\" peer\\name".to_string(),
        payload: Payload::Offer(sd(SdpKind::Offer, "v=0\r\no=- 42\t\nend")),
    });
}

#[test]
fn round_trip_answer() {
    round_trips(&Envelope {
        peer_id: "bob".to_string(),
        payload: Payload::Answer(sd(SdpKind::Answer, "v=0")),
    });
}

#[test]
fn round_trip_combined_description() {
    round_trips(&Envelope {
        peer_id: "bob".to_string(),
        payload: Payload::CombinedDescription(sd(SdpKind::Answer, "v=0")),
    });
}

#[test]
fn round_trip_end_of_candidates() {
    round_trips(&Envelope {
        peer_id: "bob".to_string(),
        payload: Payload::Candidate(None),
    });
}

#[test]
fn round_trip_full_candidate() {
    round_trips(&Envelope {
        peer_id: "bob".to_string(),
        payload: Payload::Candidate(Some(Candidate {
            candidate: "candidate:1 1 udp 2130706431 192.0.2.1 54400 typ host".to_string(),
            sdp_mid: Some("0".to_string()),
            sdp_mline_index: Some(0),
            username_fragment: Some("frag".to_string()),
        })),
    });
}

#[test]
fn round_trip_candidate_with_absent_members() {
    round_trips(&Envelope {
        peer_id: "bob".to_string(),
        payload: Payload::Candidate(Some(Candidate {
            candidate: "candidate:2".to_string(),
            sdp_mid: None,
            sdp_mline_index: None,
            username_fragment: None,
        })),
    });
}

#[test]
fn round_trip_largest_index() {
    round_trips(&Envelope {
        peer_id: "bob".to_string(),
        payload: Payload::Candidate(Some(Candidate {
            candidate: "c".to_string(),
            sdp_mid: None,
            sdp_mline_index: Some(65535),
            username_fragment: None,
        })),
    });
}

#[test]
fn candidate_tri_state_is_distinguished() {
    // Member omitted: not a candidate message at all.
    let login = decode("{\"username\":\"u\"}").unwrap();
    assert_eq!(login.payload, Payload::Login);
    // Member present with null: end of candidates.
    let done = decode("{\"username\":\"u\",\"candidate\":null}").unwrap();
    assert_eq!(done.payload, Payload::Candidate(None));
    // Member present with an object: one candidate.
    let one = decode(
        "{\"username\":\"u\",\"candidate\":{\"candidate\":\"c\",\"sdpMid\":null,\"sdpMLineIndex\":7,\"usernameFragment\":null}}",
    )
    .unwrap();
    match one.payload {
        Payload::Candidate(Some(c)) => {
            assert_eq!(c.candidate, "c");
            assert_eq!(c.sdp_mid, None);
            assert_eq!(c.sdp_mline_index, Some(7));
            assert_eq!(c.username_fragment, None);
        }
        other => panic!("expected one candidate, got {:?}", other),
    }
}

#[test]
fn two_payload_members_are_malformed() {
    let r = decode(
        "{\"username\":\"u\",\"offer\":{\"type\":\"offer\",\"sdp\":\"v\"},\"answer\":{\"type\":\"answer\",\"sdp\":\"v\"}}",
    );
    assert_eq!(r, Err(DecodeError::MalformedEnvelope));
    let r = decode(
        "{\"username\":\"u\",\"answer\":{\"type\":\"answer\",\"sdp\":\"v\"},\"candidate\":null}",
    );
    assert_eq!(r, Err(DecodeError::MalformedEnvelope));
}

#[test]
fn malformed_frames_are_rejected() {
    assert_eq!(decode(""), Err(DecodeError::MalformedEnvelope));
    assert_eq!(decode("hello"), Err(DecodeError::MalformedEnvelope));
    assert_eq!(decode("{\"user\":\"u\"}"), Err(DecodeError::MalformedEnvelope));
    assert_eq!(decode("{\"username\":\"u\""), Err(DecodeError::MalformedEnvelope));
    assert_eq!(decode("{\"username\":\"u\"} "), Err(DecodeError::MalformedEnvelope));
    assert_eq!(decode("{\"username\":\"u\\q\"}"), Err(DecodeError::MalformedEnvelope));
    assert_eq!(
        decode("{\"username\":\"u\",\"offer\":{\"type\":\"huh\",\"sdp\":\"v\"}}"),
        Err(DecodeError::MalformedEnvelope)
    );
    // An index with a leading zero, and one too large for the index type.
    assert_eq!(
        decode("{\"username\":\"u\",\"candidate\":{\"candidate\":\"c\",\"sdpMid\":null,\"sdpMLineIndex\":007,\"usernameFragment\":null}}"),
        Err(DecodeError::MalformedEnvelope)
    );
    assert_eq!(
        decode("{\"username\":\"u\",\"candidate\":{\"candidate\":\"c\",\"sdpMid\":null,\"sdpMLineIndex\":65536,\"usernameFragment\":null}}"),
        Err(DecodeError::MalformedEnvelope)
    );
}

#[test]
fn decode_two_field_variant() {
    let e = decode("{\"username\":\"bob\",\"desc\":{\"type\":\"offer\",\"sdp\":\"v=0\"}}").unwrap();
    assert_eq!(
        e,
        Envelope {
            peer_id: "bob".to_string(),
            payload: Payload::CombinedDescription(sd(SdpKind::Offer, "v=0")),
        }
    );
}

#[test]
fn encode_end_of_candidates_exact() {
    let e = Envelope { peer_id: "bob".to_string(), payload: Payload::Candidate(None) };
    assert_eq!(encode(&e), "{\"username\":\"bob\",\"candidate\":null}");
}

#[test]
fn encode_candidate_members_exact() {
    let e = Envelope {
        peer_id: "bob".to_string(),
        payload: Payload::Candidate(Some(Candidate {
            candidate: "candidate:1".to_string(),
            sdp_mid: Some("0".to_string()),
            sdp_mline_index: Some(65535),
            username_fragment: None,
        })),
    };
    assert_eq!(
        encode(&e),
        "{\"username\":\"bob\",\"candidate\":{\"candidate\":\"candidate:1\",\"sdpMid\":\"0\",\"sdpMLineIndex\":65535,\"usernameFragment\":null}}"
    );
}

#[test]
fn unknown_member_is_malformed() {
    assert_eq!(
        decode("{\"username\":\"u\",\"extra\":1}"),
        Err(DecodeError::MalformedEnvelope)
    );
}

#[test]
fn round_trip_pranswer_and_rollback_tags() {
    round_trips(&Envelope {
        peer_id: "p".to_string(),
        payload: Payload::CombinedDescription(sd(SdpKind::Pranswer, "v=0")),
    });
    round_trips(&Envelope {
        peer_id: "p".to_string(),
        payload: Payload::CombinedDescription(sd(SdpKind::Rollback, "")),
    });
}
