//! Core of a realtime chat client session: the wire-envelope codec, the
//! session state (roster, message log, local identity), the inbound
//! dispatcher and the outbound composer.
//!
//! The transport (a duplex text channel) and the visual renderer are external
//! collaborators: the library hands frames out as plain strings and takes
//! inbound frames in as plain strings.

pub mod chat;
pub mod codec;
pub mod laws;
