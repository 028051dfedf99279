//! A bridge between a long-polling group chat service and line-protocol chat
//! clients: the line codec, the mirrored room model and the session state machine.

pub mod text;
pub mod protocol;
pub mod ident;
pub mod events;
pub mod room;
pub mod auth;
pub mod outbound;
pub mod bridge;
pub mod client;
pub mod line_reader;
