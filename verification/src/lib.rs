//! Core of a multi-room, line-oriented chat server.
//!
//! The library holds the verified logic: display-name rules and generation,
//! the claimed-name registry, the room registry with its membership
//! bookkeeping, and the per-connection protocol state machine.  The
//! surrounding program supplies the transport: it frames the byte stream
//! into lines, feeds each line (or read error) to the state machine, and
//! carries its replies back to the client.

pub mod name_rules;
pub mod text;
pub mod generator;
pub mod registry;
pub mod rooms;
pub mod protocol;
pub mod session;
