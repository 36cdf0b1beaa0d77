//! The logic of a container runtime for Kubernetes nodes, with its contracts proved.

pub mod acceptance;
pub mod calendar;
pub mod fake;
pub mod log;
pub mod net;
pub mod seqs;
pub mod server;
pub mod shell;
pub mod stream;
pub mod text;
pub mod text_map;
pub mod types;
pub mod vectors;
pub mod words;
