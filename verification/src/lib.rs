//! Core of a dual-protocol (IMAP + SMTP) mail server: protocol parsing,
//! response formatting, session state machines and streaming message
//! decoders, with machine-checked contracts.
//!
//! All I/O stays outside this crate; the functions here work on plain
//! values (bytes, strings, the crate's own types) so that every decision
//! the server makes is stated and proved here.

pub mod auth;
pub mod authenticate;
pub mod imap;
pub mod line;
pub mod sasl;
pub mod smtp;
pub mod stream;
pub mod text;
