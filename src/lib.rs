//! Relaying a live camera source to browser viewers: the registry of relays,
//! the fan-out of decoder output to viewers, and the decisions of the loops
//! that drive them.

pub mod connection;
pub mod decoder;
pub mod fanout;
pub mod registry;
pub mod response;
pub mod text;
