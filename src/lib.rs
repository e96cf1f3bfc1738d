//! Session, overlay-tunnel and peer-discovery logic for serverless game lobbies.
//!
//! The library holds the decisions: validating user input, recognising the
//! overlay address in the tunnel daemon's output, the tunnel state machine,
//! the peer directory and its discovery protocol, and the lobby roster. The
//! process, socket and file work around them is done by the embedding program.
pub mod text;
pub mod address;
pub mod error;
pub mod tunnel;
pub mod discovery;
pub mod lobby;
pub mod launcher;
pub mod events;
pub mod hosts;
pub mod adapters;
