//! Signaling layer for establishing a peer-to-peer data channel between two
//! endpoints through a rendezvous relay.
//!
//! The crate provides the relay message codec (the JSON wire format carried as
//! UTF-8 text frames) and the signaling state machine that decides, for each
//! inbound envelope and each local engine event, which actions to perform and
//! which envelopes to send. The relay transport and the RTC engine themselves
//! are external collaborators; an embedding program performs their I/O and
//! feeds events back in.

pub mod codec;
pub mod envelope;
pub mod session;
