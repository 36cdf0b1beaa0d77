//! The shell: requests of the runtime interface turned into calls of a backend, and what the
//! backend reports turned into responses.

pub mod image;
pub mod proto;
pub mod rpc;
pub mod runtime;
