//! Bootloader handshake for a virtual hardware prototype reached over a
//! serial link: wire constants, a marker matcher for live byte streams, and
//! the handshake state machine that sequences commands and responses.

pub mod driver;
pub mod matcher;
pub mod protocol;
pub mod source;
pub mod wait;
