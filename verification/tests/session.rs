use signaling::codec::encode;
use signaling::envelope::{Candidate, Envelope, Payload, SdpKind, SessionDescription};
use signaling::session::{Action, Event, Phase, Role, SendError, Session};

fn sd(kind: SdpKind, sdp: &str) -> SessionDescription {
    SessionDescription { kind, sdp: sdp.to_string() }
}

#[test]
fn role_follows_peer_argument() {
    let initiator = Session::new(Some("bob".to_string()));
    assert_eq!(initiator.role, Role::Initiator);
    assert_eq!(initiator.peer_id, Some("bob".to_string()));
    let responder = Session::new(None);
    assert_eq!(responder.role, Role::Responder);
    assert_eq!(responder.peer_id, None);
}

#[test]
fn initiator_happy_path() {
    let mut s = Session::new(Some("bob".to_string()));
    let kickoff = s.step(Event::Start);
    assert_eq!(kickoff, vec![Action::CreateDataChannel, Action::CreateOffer]);
    assert_eq!(s.phase, Phase::Idle);

    let offer = sd(SdpKind::Offer, "v=0");
    let acts = s.step(Event::OfferCreated(offer.clone()));
    assert_eq!(acts.len(), 2);
    assert_eq!(acts[0], Action::SetLocalDescription(offer.clone()));
    // Exactly one outbound envelope carries the offer, addressed to the peer.
    let outbound = Envelope { peer_id: "bob".to_string(), payload: Payload::Offer(offer) };
    assert_eq!(acts[1], Action::SendFrame(outbound.clone()));
    assert_eq!(s.phase, Phase::Offering);
    assert_eq!(
        encode(&outbound),
        "{\"username\":\"bob\",\"offer\":{\"type\":\"offer\",\"sdp\":\"v=0\"}}"
    );

    // The peer's answer is handed to the engine; nothing further is sent.
    let answer = sd(SdpKind::Answer, "v=1");
    let acts = s.step(Event::Inbound(Envelope {
        peer_id: "bob".to_string(),
        payload: Payload::Answer(answer.clone()),
    }));
    assert_eq!(acts, vec![Action::SetRemoteDescription(answer)]);
    assert_eq!(s.phase, Phase::Connected);
    assert!(!s.data_channel_open);

    // Once the channel opens, application text may flow.
    assert_eq!(s.step(Event::ChannelOpened), vec![]);
    assert!(s.data_channel_open);
    assert_eq!(s.send_text("hello".to_string()), Ok("hello".to_string()));
}

#[test]
fn responder_happy_path() {
    let mut s = Session::new(None);
    assert_eq!(s.step(Event::Start), vec![]);
    assert_eq!(s.phase, Phase::Idle);

    let offer = sd(SdpKind::Offer, "v=0");
    let acts = s.step(Event::Inbound(Envelope {
        peer_id: "bob".to_string(),
        payload: Payload::Offer(offer.clone()),
    }));
    assert_eq!(
        acts,
        vec![Action::SetRemoteDescription(offer), Action::CreateAnswer]
    );
    assert_eq!(s.peer_id, Some("bob".to_string()));
    assert_eq!(s.phase, Phase::AnsweringPending);

    // Exactly one outbound envelope carries the answer, addressed to the
    // offer's sender.
    let answer = sd(SdpKind::Answer, "v=1");
    let acts = s.step(Event::AnswerCreated(answer.clone()));
    let sends: Vec<&Action> = acts
        .iter()
        .filter(|a| matches!(a, Action::SendFrame(_)))
        .collect();
    assert_eq!(sends.len(), 1);
    assert_eq!(
        *sends[0],
        Action::SendFrame(Envelope {
            peer_id: "bob".to_string(),
            payload: Payload::Answer(answer.clone()),
        })
    );
    assert_eq!(acts[0], Action::SetLocalDescription(answer));
}

#[test]
fn serialized_delivery_of_answer_and_local_candidate() {
    let mut s = Session::new(Some("bob".to_string()));
    s.step(Event::Start);
    s.step(Event::OfferCreated(sd(SdpKind::Offer, "v=0")));
    assert_eq!(s.phase, Phase::Offering);

    // The two deliveries run one after the other; after each, the session is a
    // whole post-transition state, never a mixture.
    let answer = sd(SdpKind::Answer, "v=1");
    let acts = s.step(Event::Inbound(Envelope {
        peer_id: "bob".to_string(),
        payload: Payload::Answer(answer.clone()),
    }));
    assert_eq!(acts, vec![Action::SetRemoteDescription(answer)]);
    assert_eq!(s.phase, Phase::Connected);
    assert_eq!(s.peer_id, Some("bob".to_string()));

    let cand = Candidate {
        candidate: "candidate:1".to_string(),
        sdp_mid: Some("0".to_string()),
        sdp_mline_index: Some(0),
        username_fragment: None,
    };
    let acts = s.step(Event::LocalCandidate(Some(cand.clone())));
    assert_eq!(
        acts,
        vec![Action::SendFrame(Envelope {
            peer_id: "bob".to_string(),
            payload: Payload::Candidate(Some(cand)),
        })]
    );
    assert_eq!(s.phase, Phase::Connected);
}

#[test]
fn end_of_candidates_twice_changes_nothing() {
    let mut s = Session::new(Some("bob".to_string()));
    s.step(Event::Start);
    s.step(Event::OfferCreated(sd(SdpKind::Offer, "v=0")));
    s.step(Event::ChannelOpened);
    let before_open = s.data_channel_open;

    let marker = Envelope { peer_id: "bob".to_string(), payload: Payload::Candidate(None) };
    let first = s.step(Event::Inbound(marker.clone()));
    assert_eq!(first, vec![Action::AddRemoteCandidate(None)]);
    assert_eq!(s.data_channel_open, before_open);
    let second = s.step(Event::Inbound(marker));
    assert_eq!(second, vec![Action::AddRemoteCandidate(None)]);
    assert_eq!(s.data_channel_open, before_open);
    assert_eq!(s.phase, Phase::Connected);
}

#[test]
fn send_before_channel_open_is_refused() {
    let s = Session::new(Some("bob".to_string()));
    assert_eq!(
        s.send_text("hello".to_string()),
        Err(SendError::ChannelClosed)
    );
}

#[test]
fn inbound_login_and_engine_states_change_no_protocol_state() {
    let mut s = Session::new(None);
    let acts = s.step(Event::Inbound(Envelope {
        peer_id: "carol".to_string(),
        payload: Payload::Login,
    }));
    assert_eq!(acts, vec![]);
    assert_eq!(s.phase, Phase::Idle);
    assert_eq!(s.peer_id, None);
}

#[test]
fn combined_description_offer_is_answered() {
    let mut s = Session::new(None);
    let offer = sd(SdpKind::Offer, "v=0");
    let acts = s.step(Event::Inbound(Envelope {
        peer_id: "bob".to_string(),
        payload: Payload::CombinedDescription(offer.clone()),
    }));
    assert_eq!(
        acts,
        vec![Action::SetRemoteDescription(offer), Action::CreateAnswer]
    );
    assert_eq!(s.peer_id, Some("bob".to_string()));
    assert_eq!(s.phase, Phase::AnsweringPending);
}
