//! The data exchanged over the relay: envelopes carrying a peer identifier and
//! at most one payload, together with their mathematical models (views).
//!
//! Wire text carries no raw control characters; the well-formedness predicates
//! below admit ordinary text plus newline, carriage return and tab, which the
//! codec escapes.

use vstd::prelude::*;

verus! {

/// A character the wire format can carry inside a string field: anything at or
/// above the space character, plus the three escapable controls.
pub open spec fn wf_char(c: char) -> bool {
    c as u32 >= 32 || c == '\n' || c == '\r' || c == '\t'
}

/// Text whose every character the wire format can carry.
pub open spec fn wf_text(t: Seq<char>) -> bool {
    forall|i: int| 0 <= i < t.len() ==> wf_char(#[trigger] t[i])
}

/// The type tag of a session description, mirroring the SDP type tag that the
/// RTC engine stamps on the descriptions it produces.
#[derive(Clone, Copy, Debug, PartialEq, Eq, Structural)]
pub enum SdpKind {
    Offer,
    Pranswer,
    Answer,
    Rollback,
}

/// A session description: a type tag plus the SDP text, produced by the RTC
/// engine and passed through the signaling layer unmodified.
#[derive(Clone, Debug, PartialEq, Eq)]
pub struct SessionDescription {
    pub kind: SdpKind,
    pub sdp: String,
}

/// Model of a session description: the same data over mathematical text.
#[verifier::ext_equal]
pub struct SdModel {
    pub kind: SdpKind,
    pub sdp: Seq<char>,
}

impl View for SessionDescription {
    type V = SdModel;

    open spec fn view(&self) -> SdModel {
        SdModel { kind: self.kind, sdp: self.sdp@ }
    }
}

impl SdModel {
    pub open spec fn wf(self) -> bool {
        wf_text(self.sdp)
    }
}

/// One discovered network path, as exchanged on the wire.
#[derive(Clone, Debug, PartialEq, Eq)]
pub struct Candidate {
    pub candidate: String,
    pub sdp_mid: Option<String>,
    pub sdp_mline_index: Option<u16>,
    pub username_fragment: Option<String>,
}

/// Model of a candidate.
#[verifier::ext_equal]
pub struct CandModel {
    pub candidate: Seq<char>,
    pub sdp_mid: Option<Seq<char>>,
    pub sdp_mline_index: Option<u16>,
    pub username_fragment: Option<Seq<char>>,
}

pub open spec fn opt_str_view(o: Option<String>) -> Option<Seq<char>> {
    match o {
        Some(s) => Some(s@),
        None => None,
    }
}

impl View for Candidate {
    type V = CandModel;

    open spec fn view(&self) -> CandModel {
        CandModel {
            candidate: self.candidate@,
            sdp_mid: opt_str_view(self.sdp_mid),
            sdp_mline_index: self.sdp_mline_index,
            username_fragment: opt_str_view(self.username_fragment),
        }
    }
}

pub open spec fn wf_opt_text(o: Option<Seq<char>>) -> bool {
    match o {
        Some(t) => wf_text(t),
        None => true,
    }
}

impl CandModel {
    pub open spec fn wf(self) -> bool {
        &&& wf_text(self.candidate)
        &&& wf_opt_text(self.sdp_mid)
        &&& wf_opt_text(self.username_fragment)
    }
}

/// The payload of an envelope: exactly one variant per message. A bare login
/// announcement carries nothing; a candidate message distinguishes "here is a
/// path" from "no more paths" (the end-of-candidates marker). The combined
/// description is the alternate two-field wire shape, where a single
/// description tagged by its own kind stands in place of distinct offer and
/// answer fields.
#[derive(Clone, Debug, PartialEq, Eq)]
pub enum Payload {
    Login,
    Offer(SessionDescription),
    Answer(SessionDescription),
    Candidate(Option<Candidate>),
    CombinedDescription(SessionDescription),
}

/// Model of a payload.
#[verifier::ext_equal]
pub enum PayloadModel {
    Login,
    Offer(SdModel),
    Answer(SdModel),
    Candidate(Option<CandModel>),
    CombinedDescription(SdModel),
}

impl View for Payload {
    type V = PayloadModel;

    open spec fn view(&self) -> PayloadModel {
        match self {
            Payload::Login => PayloadModel::Login,
            Payload::Offer(sd) => PayloadModel::Offer(sd@),
            Payload::Answer(sd) => PayloadModel::Answer(sd@),
            Payload::Candidate(c) => PayloadModel::Candidate(
                match c {
                    Some(c) => Some(c@),
                    None => None,
                },
            ),
            Payload::CombinedDescription(sd) => PayloadModel::CombinedDescription(sd@),
        }
    }
}

impl PayloadModel {
    pub open spec fn wf(self) -> bool {
        match self {
            PayloadModel::Login => true,
            PayloadModel::Offer(sd) => sd.wf(),
            PayloadModel::Answer(sd) => sd.wf(),
            PayloadModel::Candidate(c) => match c {
                Some(c) => c.wf(),
                None => true,
            },
            PayloadModel::CombinedDescription(sd) => sd.wf(),
        }
    }
}

/// The unit exchanged over the relay: the sender's or addressee's logical name
/// and exactly one payload.
#[derive(Clone, Debug, PartialEq, Eq)]
pub struct Envelope {
    pub peer_id: String,
    pub payload: Payload,
}

/// Model of an envelope.
#[verifier::ext_equal]
pub struct EnvelopeModel {
    pub peer_id: Seq<char>,
    pub payload: PayloadModel,
}

impl View for Envelope {
    type V = EnvelopeModel;

    open spec fn view(&self) -> EnvelopeModel {
        EnvelopeModel { peer_id: self.peer_id@, payload: self.payload@ }
    }
}

impl EnvelopeModel {
    pub open spec fn wf(self) -> bool {
        wf_text(self.peer_id) && self.payload.wf()
    }
}

impl Envelope {
    /// A valid envelope: all of its text fields can be carried on the wire.
    pub open spec fn wf(self) -> bool {
        self@.wf()
    }
}

} // verus!
