//! An embeddable SMTP receiver core.
//!
//! The crate provides the pieces a mail-receiving program is built from:
//! a line parser that turns CRLF-terminated byte lines into SMTP commands
//! (`parser`), the SASL base64 codec (`sasl`), a response model
//! (`response`), the per-connection SMTP session state machine (`fsm`),
//! a streaming MIME event parser for the DATA payload (`mime`) with a
//! message-collecting wrapper (`message`), and the byte-stream boundary
//! the driver loop runs over (`stream`). Network plumbing, TLS and
//! storage live outside; they drive the state machine with parsed lines
//! and carry out the actions its responses ask for.

pub mod response;
pub mod smtp;
pub mod sasl;
pub mod parser;
pub mod fsm;
pub mod mime;
pub mod message;
pub mod stream;
