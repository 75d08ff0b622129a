//! The SMTP side: command grammar, EHLO responses, the session state
//! machine, and the two streaming message body decoders (DATA with
//! dot-stuffing, BDAT with length-prefixed chunks).

pub mod bdat;
pub mod command;
pub mod data;
pub mod ehlo;
pub mod message;
pub mod session;

use vstd::prelude::*;

verus! {

/// The maximum number of bytes in a line including the CRLF
/// (RFC 5321, section 4.5.3.1.6).
pub const LINE_LIMIT: usize = 1000;

} // verus!
