//! A streaming reverse proxy for chat-completion backends: the verified core.
//!
//! - `sse`: the incremental Server-Sent-Events parser and writer, over a
//!   byte-level model of the wire; `stream_laws`: what it guarantees across
//!   chunk boundaries and between writing and reading.
//! - `proxy`: backend addresses, request and response translation;
//!   `api`: the chat-completion records.
//! - `tunnel`: the CONNECT exchange with a forward proxy.
//! - `connection`: when a send reuses the backend connection.
//! - `files`, `service`: the static file server's path rules and routing.
//! - `text`: UTF-8 facts and the calls into std that the rest relies on.
pub mod api;
pub mod connection;
pub mod files;
pub mod proxy;
pub mod service;
pub mod sse;
pub mod stream_laws;
pub mod text;
pub mod tunnel;
