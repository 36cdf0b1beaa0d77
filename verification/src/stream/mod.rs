//! Streaming sessions: the tokens that open them and the SPDY connections that carry them.

pub mod dict;
pub mod forward;
pub mod frame;
pub mod reader;
pub mod session;
pub mod token;
