//! The signaling state machine: the sequence policy that decides, for each
//! inbound envelope and each local engine event, which engine operations to
//! perform, which envelopes to send, and what session state to record.
//!
//! The machine is a pure step function: the embedding program owns the relay
//! connection and the RTC engine, feeds every event through [`Session::step`],
//! and performs the returned [`Action`]s in order. Because the session is
//! stepped through one exclusive reference, transitions are serialized: no
//! observer can see a state that mixes two transitions.

use vstd::prelude::*;

use crate::envelope::{
    Candidate, CandModel, Envelope, EnvelopeModel, opt_str_view, Payload, PayloadModel, SdModel,
    SdpKind, SessionDescription,
};

verus! {

/// Which side of the exchange this process plays: the initiator creates the
/// data channel and sends the first offer; the responder waits for one.
#[derive(Clone, Copy, Debug, PartialEq, Eq, Structural)]
pub enum Role {
    Initiator,
    Responder,
}

/// Where the negotiation stands.
#[derive(Clone, Copy, Debug, PartialEq, Eq, Structural)]
pub enum Phase {
    Idle,
    Offering,
    AnsweringPending,
    Connected,
    Closed,
}

/// The engine's own sub-states, mirrored into the session for diagnostics
/// only; they drive no signaling transition.
#[derive(Clone, Debug, PartialEq, Eq)]
pub struct EngineStates {
    pub connection: String,
    pub ice: String,
    pub gathering: String,
    pub signaling: String,
}

/// Model of the mirrored engine states.
#[verifier::ext_equal]
pub struct EngineStatesModel {
    pub connection: Seq<char>,
    pub ice: Seq<char>,
    pub gathering: Seq<char>,
    pub signaling: Seq<char>,
}

impl View for EngineStates {
    type V = EngineStatesModel;

    open spec fn view(&self) -> EngineStatesModel {
        EngineStatesModel {
            connection: self.connection@,
            ice: self.ice@,
            gathering: self.gathering@,
            signaling: self.signaling@,
        }
    }
}

/// One event the machine consumes: an envelope from the relay, a result or
/// callback from the engine, or the start of the session.
#[derive(Debug, PartialEq, Eq)]
pub enum Event {
    /// The session begins; the initiator kicks off negotiation.
    Start,
    /// An envelope arrived from the relay.
    Inbound(Envelope),
    /// The engine produced the local offer that was asked for.
    OfferCreated(SessionDescription),
    /// The engine produced the local answer that was asked for.
    AnswerCreated(SessionDescription),
    /// The engine discovered a local reachability candidate; absence marks the
    /// end of the gathering round.
    LocalCandidate(Option<Candidate>),
    /// A data channel opened, created locally or received from the peer.
    ChannelOpened,
    /// The engine reported new sub-states.
    EngineStateChange(EngineStates),
}

/// Model of an event.
#[verifier::ext_equal]
pub enum EventModel {
    Start,
    Inbound(EnvelopeModel),
    OfferCreated(SdModel),
    AnswerCreated(SdModel),
    LocalCandidate(Option<CandModel>),
    ChannelOpened,
    EngineStateChange(EngineStatesModel),
}

pub open spec fn opt_cand_model(c: Option<Candidate>) -> Option<CandModel> {
    match c {
        Some(c) => Some(c@),
        None => None,
    }
}

impl View for Event {
    type V = EventModel;

    open spec fn view(&self) -> EventModel {
        match self {
            Event::Start => EventModel::Start,
            Event::Inbound(e) => EventModel::Inbound(e@),
            Event::OfferCreated(sd) => EventModel::OfferCreated(sd@),
            Event::AnswerCreated(sd) => EventModel::AnswerCreated(sd@),
            Event::LocalCandidate(c) => EventModel::LocalCandidate(opt_cand_model(*c)),
            Event::ChannelOpened => EventModel::ChannelOpened,
            Event::EngineStateChange(es) => EventModel::EngineStateChange(es@),
        }
    }
}

/// One operation the embedding program must perform, in order.
#[derive(Debug, PartialEq, Eq)]
pub enum Action {
    /// Create the local data channel (the initiator's first step).
    CreateDataChannel,
    /// Ask the engine for a local offer; its result comes back as
    /// [`Event::OfferCreated`].
    CreateOffer,
    /// Ask the engine for a local answer; its result comes back as
    /// [`Event::AnswerCreated`].
    CreateAnswer,
    /// Hand a description to the engine as the local description.
    SetLocalDescription(SessionDescription),
    /// Hand a description to the engine as the remote description.
    SetRemoteDescription(SessionDescription),
    /// Hand a remote candidate to the engine; absence is the end-of-candidates
    /// marker and is handed over as such.
    AddRemoteCandidate(Option<Candidate>),
    /// Encode this envelope and send it on the relay.
    SendFrame(Envelope),
}

/// Model of an action.
#[verifier::ext_equal]
pub enum ActionModel {
    CreateDataChannel,
    CreateOffer,
    CreateAnswer,
    SetLocalDescription(SdModel),
    SetRemoteDescription(SdModel),
    AddRemoteCandidate(Option<CandModel>),
    SendFrame(EnvelopeModel),
}

impl View for Action {
    type V = ActionModel;

    open spec fn view(&self) -> ActionModel {
        match self {
            Action::CreateDataChannel => ActionModel::CreateDataChannel,
            Action::CreateOffer => ActionModel::CreateOffer,
            Action::CreateAnswer => ActionModel::CreateAnswer,
            Action::SetLocalDescription(sd) => ActionModel::SetLocalDescription(sd@),
            Action::SetRemoteDescription(sd) => ActionModel::SetRemoteDescription(sd@),
            Action::AddRemoteCandidate(c) => ActionModel::AddRemoteCandidate(opt_cand_model(*c)),
            Action::SendFrame(e) => ActionModel::SendFrame(e@),
        }
    }
}

/// The runtime state of one peer relationship.
#[derive(Debug, PartialEq, Eq)]
pub struct Session {
    pub role: Role,
    pub phase: Phase,
    pub peer_id: Option<String>,
    pub data_channel_open: bool,
    pub engine: EngineStates,
}

/// Model of a session.
#[verifier::ext_equal]
pub struct SessionModel {
    pub role: Role,
    pub phase: Phase,
    pub peer_id: Option<Seq<char>>,
    pub data_channel_open: bool,
    pub engine: EngineStatesModel,
}

impl View for Session {
    type V = SessionModel;

    open spec fn view(&self) -> SessionModel {
        SessionModel {
            role: self.role,
            phase: self.phase,
            peer_id: opt_str_view(self.peer_id),
            data_channel_open: self.data_channel_open,
            engine: self.engine@,
        }
    }
}

/// The transition table: the state after an event, and the actions the
/// embedding program performs, in order. Events that cannot arise in the state
/// at hand leave it unchanged and demand nothing.
pub open spec fn spec_step(s: SessionModel, ev: EventModel) -> (SessionModel, Seq<ActionModel>) {
    match ev {
        EventModel::Start => if s.role == Role::Initiator && s.phase == Phase::Idle {
            (s, seq![ActionModel::CreateDataChannel, ActionModel::CreateOffer])
        } else {
            (s, Seq::<ActionModel>::empty())
        },
        EventModel::OfferCreated(sd) => if s.role == Role::Initiator && s.phase == Phase::Idle
            && s.peer_id is Some {
            (
                SessionModel { phase: Phase::Offering, ..s },
                seq![
                    ActionModel::SetLocalDescription(sd),
                    ActionModel::SendFrame(
                        EnvelopeModel {
                            peer_id: s.peer_id->Some_0,
                            payload: PayloadModel::Offer(sd),
                        },
                    ),
                ],
            )
        } else {
            (s, Seq::<ActionModel>::empty())
        },
        EventModel::AnswerCreated(sd) => if s.phase == Phase::AnsweringPending
            && s.peer_id is Some {
            (
                s,
                seq![
                    ActionModel::SetLocalDescription(sd),
                    ActionModel::SendFrame(
                        EnvelopeModel {
                            peer_id: s.peer_id->Some_0,
                            payload: PayloadModel::Answer(sd),
                        },
                    ),
                ],
            )
        } else {
            (s, Seq::<ActionModel>::empty())
        },
        EventModel::Inbound(env) => spec_step_inbound(s, env),
        EventModel::LocalCandidate(c) => (
            s,
            seq![
                ActionModel::SendFrame(
                    EnvelopeModel {
                        peer_id: s.peer_id->Some_0,
                        payload: PayloadModel::Candidate(c),
                    },
                ),
            ],
        ),
        EventModel::ChannelOpened => (
            SessionModel { phase: Phase::Connected, data_channel_open: true, ..s },
            Seq::<ActionModel>::empty(),
        ),
        EventModel::EngineStateChange(es) => (
            SessionModel { engine: es, ..s },
            Seq::<ActionModel>::empty(),
        ),
    }
}

/// The inbound half of the table. An offer is answered from any phase, as the
/// glare policy leaves the collision to the engine's own rejection; an answer
/// completes the exchange only when one is awaited; candidates and logins
/// never change the session.
pub open spec fn spec_step_inbound(s: SessionModel, env: EnvelopeModel) -> (
    SessionModel,
    Seq<ActionModel>,
) {
    match env.payload {
        PayloadModel::Login => (s, Seq::<ActionModel>::empty()),
        PayloadModel::Offer(sd) => (
            SessionModel { phase: Phase::AnsweringPending, peer_id: Some(env.peer_id), ..s },
            seq![ActionModel::SetRemoteDescription(sd), ActionModel::CreateAnswer],
        ),
        PayloadModel::Answer(sd) => (
            SessionModel {
                phase: if s.phase == Phase::Offering {
                    Phase::Connected
                } else {
                    s.phase
                },
                ..s
            },
            seq![ActionModel::SetRemoteDescription(sd)],
        ),
        PayloadModel::Candidate(c) => (s, seq![ActionModel::AddRemoteCandidate(c)]),
        PayloadModel::CombinedDescription(sd) => if sd.kind == SdpKind::Offer {
            (
                SessionModel { phase: Phase::AnsweringPending, peer_id: Some(env.peer_id), ..s },
                seq![ActionModel::SetRemoteDescription(sd), ActionModel::CreateAnswer],
            )
        } else if sd.kind == SdpKind::Answer {
            (
                SessionModel {
                    phase: if s.phase == Phase::Offering {
                        Phase::Connected
                    } else {
                        s.phase
                    },
                    ..s
                },
                seq![ActionModel::SetRemoteDescription(sd)],
            )
        } else {
            (s, Seq::<ActionModel>::empty())
        },
    }
}

/// The failure of sending application text: the data channel is not open.
#[derive(Clone, Copy, Debug, PartialEq, Eq, Structural)]
pub enum SendError {
    ChannelClosed,
}

fn clone_string(s: &String) -> (r: String)
    ensures
        r@ == s@,
{
    s.clone()
}

fn clone_sd(sd: &SessionDescription) -> (r: SessionDescription)
    ensures
        r@ == sd@,
{
    SessionDescription { kind: sd.kind, sdp: clone_string(&sd.sdp) }
}

impl Session {
    /// A fresh session: the role follows from whether a peer to call is known
    /// at start, as the initiator is the side told whom to reach.
    pub fn new(peer: Option<String>) -> (r: Session)
        ensures
            r@.role == (if peer is Some {
                Role::Initiator
            } else {
                Role::Responder
            }),
            r@.phase == Phase::Idle,
            r@.peer_id == opt_str_view(peer),
            !r@.data_channel_open,
            r@.engine.connection =~= Seq::<char>::empty(),
            r@.engine.ice =~= Seq::<char>::empty(),
            r@.engine.gathering =~= Seq::<char>::empty(),
            r@.engine.signaling =~= Seq::<char>::empty(),
    {
        let role = match &peer {
            Some(_) => Role::Initiator,
            None => Role::Responder,
        };
        Session {
            role,
            phase: Phase::Idle,
            peer_id: peer,
            data_channel_open: false,
            engine: EngineStates {
                connection: String::new(),
                ice: String::new(),
                gathering: String::new(),
                signaling: String::new(),
            },
        }
    }

    /// Consumes one event and yields the actions to perform, exactly as the
    /// transition table says. A local candidate can only be announced once the
    /// peer is known, since its envelope must be addressed.
    pub fn step(&mut self, ev: Event) -> (acts: Vec<Action>)
        requires
            !(ev@ is LocalCandidate && old(self)@.peer_id is None),
        ensures
            final(self)@ == spec_step(old(self)@, ev@).0,
            acts@.map_values(|a: Action| a@) == spec_step(old(self)@, ev@).1,
    {
        let ghost s0 = self@;
        let ghost evm = ev@;
        let mut acts: Vec<Action> = Vec::new();
        match ev {
            Event::Start => {
                if matches!(self.role, Role::Initiator) && matches!(self.phase, Phase::Idle) {
                    acts.push(Action::CreateDataChannel);
                    acts.push(Action::CreateOffer);
                }
            },
            Event::OfferCreated(sd) => {
                if matches!(self.role, Role::Initiator) && matches!(self.phase, Phase::Idle)
                    && self.peer_id.is_some() {
                    let peer = clone_string(self.peer_id.as_ref().unwrap());
                    acts.push(Action::SetLocalDescription(clone_sd(&sd)));
                    acts.push(
                        Action::SendFrame(
                            Envelope { peer_id: peer, payload: Payload::Offer(sd) },
                        ),
                    );
                    self.phase = Phase::Offering;
                }
            },
            Event::AnswerCreated(sd) => {
                if matches!(self.phase, Phase::AnsweringPending) && self.peer_id.is_some() {
                    let peer = clone_string(self.peer_id.as_ref().unwrap());
                    acts.push(Action::SetLocalDescription(clone_sd(&sd)));
                    acts.push(
                        Action::SendFrame(
                            Envelope { peer_id: peer, payload: Payload::Answer(sd) },
                        ),
                    );
                }
            },
            Event::Inbound(env) => {
                let Envelope { peer_id, payload } = env;
                match payload {
                    Payload::Login => {},
                    Payload::Offer(sd) => {
                        acts.push(Action::SetRemoteDescription(sd));
                        acts.push(Action::CreateAnswer);
                        self.peer_id = Some(peer_id);
                        self.phase = Phase::AnsweringPending;
                    },
                    Payload::Answer(sd) => {
                        acts.push(Action::SetRemoteDescription(sd));
                        if matches!(self.phase, Phase::Offering) {
                            self.phase = Phase::Connected;
                        }
                    },
                    Payload::Candidate(c) => {
                        acts.push(Action::AddRemoteCandidate(c));
                    },
                    Payload::CombinedDescription(sd) => {
                        match sd.kind {
                            SdpKind::Offer => {
                                acts.push(Action::SetRemoteDescription(sd));
                                acts.push(Action::CreateAnswer);
                                self.peer_id = Some(peer_id);
                                self.phase = Phase::AnsweringPending;
                            },
                            SdpKind::Answer => {
                                acts.push(Action::SetRemoteDescription(sd));
                                if matches!(self.phase, Phase::Offering) {
                                    self.phase = Phase::Connected;
                                }
                            },
                            _ => {},
                        }
                    },
                }
            },
            Event::LocalCandidate(c) => {
                let peer = clone_string(self.peer_id.as_ref().unwrap());
                acts.push(
                    Action::SendFrame(
                        Envelope { peer_id: peer, payload: Payload::Candidate(c) },
                    ),
                );
            },
            Event::ChannelOpened => {
                self.data_channel_open = true;
                self.phase = Phase::Connected;
            },
            Event::EngineStateChange(es) => {
                self.engine = es;
            },
        }
        proof {
            assert(self@ =~= spec_step(s0, evm).0);
            assert(acts@.map_values(|a: Action| a@) =~= spec_step(s0, evm).1);
        }
        acts
    }

    /// Decides an application send: the text goes to the data channel only
    /// once that channel is open, and is refused before then, as the channel
    /// would refuse it.
    pub fn send_text(&self, msg: String) -> (r: Result<String, SendError>)
        ensures
            self@.data_channel_open ==> (r matches Ok(t) && t@ == msg@),
            !self@.data_channel_open ==> (r matches Err(e) && e == SendError::ChannelClosed),
    {
        if self.data_channel_open {
            Ok(msg)
        } else {
            Err(SendError::ChannelClosed)
        }
    }
}

} // verus!

verus! {

// ---------------------------------------------------------------------------
// The signaling laws
// ---------------------------------------------------------------------------

/// The initiator's happy path: the kickoff asks for a channel and an offer and
/// sends nothing; the created offer goes out in exactly one envelope,
/// addressed to the peer; consuming the peer's answer hands it to the engine,
/// sends nothing further, and reaches the connected phase.
pub proof fn lemma_initiator_happy(
    s0: SessionModel,
    offer: SdModel,
    from: Seq<char>,
    answer: SdModel,
)
    requires
        s0.role == Role::Initiator,
        s0.phase == Phase::Idle,
        s0.peer_id is Some,
    ensures
        spec_step(s0, EventModel::Start).0 == s0,
        spec_step(s0, EventModel::Start).1 == seq![
            ActionModel::CreateDataChannel,
            ActionModel::CreateOffer,
        ],
        spec_step(s0, EventModel::OfferCreated(offer)).0 == (SessionModel {
            phase: Phase::Offering,
            ..s0
        }),
        spec_step(s0, EventModel::OfferCreated(offer)).1 == seq![
            ActionModel::SetLocalDescription(offer),
            ActionModel::SendFrame(
                EnvelopeModel { peer_id: s0.peer_id->Some_0, payload: PayloadModel::Offer(offer) },
            ),
        ],
        spec_step(
            SessionModel { phase: Phase::Offering, ..s0 },
            EventModel::Inbound(EnvelopeModel { peer_id: from, payload: PayloadModel::Answer(answer) }),
        ).0 == (SessionModel { phase: Phase::Connected, ..s0 }),
        spec_step(
            SessionModel { phase: Phase::Offering, ..s0 },
            EventModel::Inbound(EnvelopeModel { peer_id: from, payload: PayloadModel::Answer(answer) }),
        ).1 == seq![ActionModel::SetRemoteDescription(answer)],
{
    assert(spec_step(s0, EventModel::Start).1 =~= seq![
        ActionModel::CreateDataChannel,
        ActionModel::CreateOffer,
    ]);
    assert(spec_step(s0, EventModel::OfferCreated(offer)).0 =~= (SessionModel {
        phase: Phase::Offering,
        ..s0
    }));
    assert(spec_step(s0, EventModel::OfferCreated(offer)).1 =~= seq![
        ActionModel::SetLocalDescription(offer),
        ActionModel::SendFrame(
            EnvelopeModel { peer_id: s0.peer_id->Some_0, payload: PayloadModel::Offer(offer) },
        ),
    ]);
    let s1 = SessionModel { phase: Phase::Offering, ..s0 };
    let ev = EventModel::Inbound(
        EnvelopeModel { peer_id: from, payload: PayloadModel::Answer(answer) },
    );
    assert(spec_step(s1, ev).0 =~= (SessionModel { phase: Phase::Connected, ..s0 }));
    assert(spec_step(s1, ev).1 =~= seq![ActionModel::SetRemoteDescription(answer)]);
}

/// The responder's happy path: an inbound offer is handed to the engine and an
/// answer is asked for, with the offerer's name recorded; the created answer
/// goes out in exactly one envelope, addressed to that name.
pub proof fn lemma_responder_happy(
    s0: SessionModel,
    from: Seq<char>,
    offer: SdModel,
    answer: SdModel,
)
    requires
        s0.role == Role::Responder,
        s0.phase == Phase::Idle,
    ensures
        spec_step(
            s0,
            EventModel::Inbound(EnvelopeModel { peer_id: from, payload: PayloadModel::Offer(offer) }),
        ).0 == (SessionModel { phase: Phase::AnsweringPending, peer_id: Some(from), ..s0 }),
        spec_step(
            s0,
            EventModel::Inbound(EnvelopeModel { peer_id: from, payload: PayloadModel::Offer(offer) }),
        ).1 == seq![ActionModel::SetRemoteDescription(offer), ActionModel::CreateAnswer],
        spec_step(
            SessionModel { phase: Phase::AnsweringPending, peer_id: Some(from), ..s0 },
            EventModel::AnswerCreated(answer),
        ).0 == (SessionModel { phase: Phase::AnsweringPending, peer_id: Some(from), ..s0 }),
        spec_step(
            SessionModel { phase: Phase::AnsweringPending, peer_id: Some(from), ..s0 },
            EventModel::AnswerCreated(answer),
        ).1 == seq![
            ActionModel::SetLocalDescription(answer),
            ActionModel::SendFrame(
                EnvelopeModel { peer_id: from, payload: PayloadModel::Answer(answer) },
            ),
        ],
{
    let ev = EventModel::Inbound(
        EnvelopeModel { peer_id: from, payload: PayloadModel::Offer(offer) },
    );
    let s1 = SessionModel { phase: Phase::AnsweringPending, peer_id: Some(from), ..s0 };
    assert(spec_step(s0, ev).0 =~= s1);
    assert(spec_step(s0, ev).1 =~= seq![
        ActionModel::SetRemoteDescription(offer),
        ActionModel::CreateAnswer,
    ]);
    assert(spec_step(s1, EventModel::AnswerCreated(answer)).0 =~= s1);
    assert(spec_step(s1, EventModel::AnswerCreated(answer)).1 =~= seq![
        ActionModel::SetLocalDescription(answer),
        ActionModel::SendFrame(
            EnvelopeModel { peer_id: from, payload: PayloadModel::Answer(answer) },
        ),
    ]);
}

/// End of candidates is idempotent: delivering the marker hands it to the
/// engine and changes nothing of the session, however often it is repeated —
/// in particular the data channel stays as it was.
pub proof fn lemma_end_of_candidates_idempotent(s0: SessionModel, from: Seq<char>)
    ensures
        spec_step(
            s0,
            EventModel::Inbound(
                EnvelopeModel { peer_id: from, payload: PayloadModel::Candidate(None) },
            ),
        ).0 == s0,
        spec_step(
            s0,
            EventModel::Inbound(
                EnvelopeModel { peer_id: from, payload: PayloadModel::Candidate(None) },
            ),
        ).1 == seq![ActionModel::AddRemoteCandidate(None)],
{
    let ev = EventModel::Inbound(
        EnvelopeModel { peer_id: from, payload: PayloadModel::Candidate(None) },
    );
    assert(spec_step(s0, ev).0 =~= s0);
    assert(spec_step(s0, ev).1 =~= seq![ActionModel::AddRemoteCandidate(None)]);
}

} // verus!
