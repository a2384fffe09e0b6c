//! Session engine for a test-equipment chassis that speaks a line-oriented
//! text protocol: wire encoding and decoding, the directory of module/port
//! reservation states, and the decisions of the session that owns the socket.
pub mod text;
pub mod interface;
pub mod error;
pub mod codec;
pub mod reply;
pub mod session;

pub use error::Error;
