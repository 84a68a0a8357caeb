//! Core of a small static-content server: request-line parsing, path
//! resolution, response construction and serialization, the per-connection
//! state machine, and the scheduling core of the worker pool.

pub mod connection;
pub mod content;
pub mod pool;
pub mod request;
pub mod response;
pub mod text;
