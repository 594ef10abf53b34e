//! Verified core of a command-line chat client.
//!
//! The library holds the session controller: how a turn of user input is
//! folded into the running conversation, how the request body sent to the
//! remote completion endpoint is framed, how a decoded response is rendered
//! and appended to the history, and how the history is persisted as JSON
//! text. Everything here is plain data in, plain data out; the surrounding
//! binary does the reading, the HTTP exchange and the writing.

pub mod json;
pub mod laws;
pub mod models;
pub mod parse;
pub mod render;
pub mod session;
pub mod text;
