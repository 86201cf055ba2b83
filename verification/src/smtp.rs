//! SMTP commands as a tagged type, together with their mathematical
//! model. The line parser produces these and the session state machine
//! consumes them.

use vstd::prelude::*;

verus! {

/// The SASL mechanisms the state machine can negotiate.
#[derive(Clone, Copy, Debug, PartialEq, Eq, Structural)]
pub enum AuthMechanism {
    Plain,
    Login,
}

/// Mathematical model of a [`Cmd`]: the same arms over byte sequences.
pub ghost enum CmdV {
    Helo { domain: Seq<u8> },
    Ehlo { domain: Seq<u8> },
    Mail { reverse_path: Seq<u8>, is8bit: bool },
    Rcpt { forward_path: Seq<u8> },
    Data,
    DataEnd,
    Rset,
    Quit,
    Noop,
    Vrfy,
    StartTls,
    StartedTls,
    AuthPlain { authorization_id: Seq<u8>, authentication_id: Seq<u8>, password: Seq<u8> },
    AuthPlainEmpty,
    AuthLogin { username: Seq<u8> },
    AuthLoginEmpty,
    AuthResponse { response: Seq<u8> },
}

/// One parsed SMTP command. Domains and paths are owned byte strings,
/// exactly as they stood on the wire.
pub enum Cmd {
    /// `HELO <domain>`
    Helo { domain: Vec<u8> },
    /// `EHLO <domain>`
    Ehlo { domain: Vec<u8> },
    /// `MAIL FROM:<path>`, optionally with `BODY=8BITMIME`. The path is
    /// the text between the angle brackets; empty for the null sender.
    Mail { reverse_path: Vec<u8>, is8bit: bool },
    /// `RCPT TO:<path>`
    Rcpt { forward_path: Vec<u8> },
    /// `DATA`
    Data,
    /// The terminating `.` line of the DATA payload.
    DataEnd,
    /// `RSET`
    Rset,
    /// `QUIT`
    Quit,
    /// `NOOP`
    Noop,
    /// `VRFY <text>`
    Vrfy,
    /// `STARTTLS`
    StartTls,
    /// Internal marker: the driver reports a completed TLS handshake.
    StartedTls,
    /// `AUTH PLAIN <base64>`, already decoded and split at the NUL bytes.
    AuthPlain { authorization_id: Vec<u8>, authentication_id: Vec<u8>, password: Vec<u8> },
    /// `AUTH PLAIN` without an initial response.
    AuthPlainEmpty,
    /// `AUTH LOGIN <base64-username>`, already decoded.
    AuthLogin { username: Vec<u8> },
    /// `AUTH LOGIN` without an initial response.
    AuthLoginEmpty,
    /// A SASL continuation line, already base64-decoded.
    AuthResponse { response: Vec<u8> },
}

impl View for Cmd {
    type V = CmdV;

    open spec fn view(&self) -> CmdV {
        match self {
            Cmd::Helo { domain } => CmdV::Helo { domain: domain@ },
            Cmd::Ehlo { domain } => CmdV::Ehlo { domain: domain@ },
            Cmd::Mail { reverse_path, is8bit } => CmdV::Mail {
                reverse_path: reverse_path@,
                is8bit: *is8bit,
            },
            Cmd::Rcpt { forward_path } => CmdV::Rcpt { forward_path: forward_path@ },
            Cmd::Data => CmdV::Data,
            Cmd::DataEnd => CmdV::DataEnd,
            Cmd::Rset => CmdV::Rset,
            Cmd::Quit => CmdV::Quit,
            Cmd::Noop => CmdV::Noop,
            Cmd::Vrfy => CmdV::Vrfy,
            Cmd::StartTls => CmdV::StartTls,
            Cmd::StartedTls => CmdV::StartedTls,
            Cmd::AuthPlain { authorization_id, authentication_id, password } => CmdV::AuthPlain {
                authorization_id: authorization_id@,
                authentication_id: authentication_id@,
                password: password@,
            },
            Cmd::AuthPlainEmpty => CmdV::AuthPlainEmpty,
            Cmd::AuthLogin { username } => CmdV::AuthLogin { username: username@ },
            Cmd::AuthLoginEmpty => CmdV::AuthLoginEmpty,
            Cmd::AuthResponse { response } => CmdV::AuthResponse { response: response@ },
        }
    }
}

} // verus!
