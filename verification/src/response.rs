//! SMTP response records: a reply code, an optional enhanced status
//! triple, the human-readable text lines, and the action the session
//! driver must take after sending the reply.

use vstd::prelude::*;
use vstd::string::{StringExecFns, StringSliceAdditionalSpecFns};
use vstd::utf8::encode_utf8;

verus! {

/// What the session driver does once a response has been produced.
#[derive(Clone, Copy, Debug, PartialEq, Eq, Structural)]
pub enum Action {
    /// Send the reply and keep the session open.
    Reply,
    /// Send the reply, then close the connection.
    Close,
    /// Send nothing on the wire.
    NoReply,
    /// Send the reply, then run the TLS handshake.
    UpgradeTls,
}

/// Mathematical model of a [`Response`].
pub ghost struct ResponseV {
    pub code: u16,
    pub enhanced: Option<(u16, u16, u16)>,
    pub lines: Seq<Seq<char>>,
    pub action: Action,
    pub is_error: bool,
}

impl ResponseV {
    /// A response is well formed when it carries a reply code in the SMTP
    /// range and its error flag agrees with the code; a response that puts
    /// nothing on the wire is exempt from the code range.
    pub open spec fn wf(self) -> bool {
        self.action is NoReply || (100 <= self.code <= 599 && (self.is_error <==> self.code >= 400))
    }
}

/// An SMTP reply: code, optional enhanced status code, text lines, and
/// the action the driver takes after writing it.
#[derive(Clone, Debug)]
pub struct Response {
    pub code: u16,
    pub enhanced: Option<(u16, u16, u16)>,
    pub lines: Vec<String>,
    pub action: Action,
    pub is_error: bool,
}

impl View for Response {
    type V = ResponseV;

    open spec fn view(&self) -> ResponseV {
        ResponseV {
            code: self.code,
            enhanced: self.enhanced,
            lines: self.lines.deep_view(),
            action: self.action,
            is_error: self.is_error,
        }
    }
}

/// Builds the one-line response with the given parts.
fn mk(code: u16, enhanced: Option<(u16, u16, u16)>, action: Action, is_error: bool, text: &str) -> (r: Response)
    ensures
        r@ == (ResponseV { code, enhanced, lines: seq![text@], action, is_error }),
{
    let lines = vec![text.to_owned()];
    let r = Response { code, enhanced, lines, action, is_error };
    proof {
        assert(r.lines.deep_view() =~= seq![text@]);
    }
    r
}

// --- the fixed response catalogue, one spec/exec pair each ---

pub open spec fn ok_v() -> ResponseV {
    ResponseV { code: 250, enhanced: None, lines: seq!["OK"@], action: Action::Reply, is_error: false }
}

/// 250: generic success.
pub fn ok() -> (r: Response)
    ensures r@ == ok_v(), r@.wf(),
{
    mk(250, None, Action::Reply, false, "OK")
}

pub open spec fn goodbye_v() -> ResponseV {
    ResponseV { code: 221, enhanced: None, lines: seq!["goodbye"@], action: Action::Close, is_error: false }
}

/// 221: session end; the driver closes the connection.
pub fn goodbye() -> (r: Response)
    ensures r@ == goodbye_v(), r@.wf(),
{
    mk(221, None, Action::Close, false, "goodbye")
}

pub open spec fn start_data_v() -> ResponseV {
    ResponseV {
        code: 354,
        enhanced: None,
        lines: seq!["Start mail input; end with <CRLF>.<CRLF>"@],
        action: Action::Reply,
        is_error: false,
    }
}

/// 354: begin the DATA payload.
pub fn start_data() -> (r: Response)
    ensures r@ == start_data_v(), r@.wf(),
{
    mk(354, None, Action::Reply, false, "Start mail input; end with <CRLF>.<CRLF>")
}

pub open spec fn start_tls_v() -> ResponseV {
    ResponseV {
        code: 220,
        enhanced: None,
        lines: seq!["Ready to start TLS"@],
        action: Action::UpgradeTls,
        is_error: false,
    }
}

/// 220: ready to start TLS; the driver runs the handshake after the reply.
pub fn start_tls() -> (r: Response)
    ensures r@ == start_tls_v(), r@.wf(),
{
    mk(220, None, Action::UpgradeTls, false, "Ready to start TLS")
}

pub open spec fn auth_ok_v() -> ResponseV {
    ResponseV {
        code: 235,
        enhanced: Some((2, 7, 0)),
        lines: seq!["Authentication succeeded"@],
        action: Action::Reply,
        is_error: false,
    }
}

/// 235 2.7.0: authentication succeeded.
pub fn auth_ok() -> (r: Response)
    ensures r@ == auth_ok_v(), r@.wf(),
{
    mk(235, Some((2, 7, 0)), Action::Reply, false, "Authentication succeeded")
}

pub open spec fn invalid_credentials_v() -> ResponseV {
    ResponseV {
        code: 535,
        enhanced: Some((5, 7, 8)),
        lines: seq!["Authentication credentials invalid"@],
        action: Action::Reply,
        is_error: true,
    }
}

/// 535 5.7.8: authentication failed.
pub fn invalid_credentials() -> (r: Response)
    ensures r@ == invalid_credentials_v(), r@.wf(),
{
    mk(535, Some((5, 7, 8)), Action::Reply, true, "Authentication credentials invalid")
}

pub open spec fn username_challenge_v() -> ResponseV {
    ResponseV {
        code: 334,
        enhanced: None,
        lines: seq!["VXNlcm5hbWU6"@],
        action: Action::Reply,
        is_error: false,
    }
}

/// 334 with base64("Username:"): the LOGIN username challenge.
pub fn username_challenge() -> (r: Response)
    ensures r@ == username_challenge_v(), r@.wf(),
{
    mk(334, None, Action::Reply, false, "VXNlcm5hbWU6")
}

pub open spec fn password_challenge_v() -> ResponseV {
    ResponseV {
        code: 334,
        enhanced: None,
        lines: seq!["UGFzc3dvcmQ6"@],
        action: Action::Reply,
        is_error: false,
    }
}

/// 334 with base64("Password:"): the LOGIN password challenge.
pub fn password_challenge() -> (r: Response)
    ensures r@ == password_challenge_v(), r@.wf(),
{
    mk(334, None, Action::Reply, false, "UGFzc3dvcmQ6")
}

pub open spec fn empty_auth_challenge_v() -> ResponseV {
    ResponseV { code: 334, enhanced: None, lines: seq![" "@], action: Action::Reply, is_error: false }
}

/// 334 with an empty challenge: asks for the one-shot PLAIN payload.
pub fn empty_auth_challenge() -> (r: Response)
    ensures r@ == empty_auth_challenge_v(), r@.wf(),
{
    mk(334, None, Action::Reply, false, " ")
}

pub open spec fn verify_response_v() -> ResponseV {
    ResponseV {
        code: 252,
        enhanced: None,
        lines: seq!["Cannot VRFY user, but will accept message and attempt delivery"@],
        action: Action::Reply,
        is_error: false,
    }
}

/// 252: VRFY is answered without verifying anybody.
pub fn verify_response() -> (r: Response)
    ensures r@ == verify_response_v(), r@.wf(),
{
    mk(252, None, Action::Reply, false, "Cannot VRFY user, but will accept message and attempt delivery")
}

pub open spec fn bad_hello_v() -> ResponseV {
    ResponseV { code: 505, enhanced: None, lines: seq!["Bad HELO"@], action: Action::Reply, is_error: true }
}

/// 505: HELO refused; when authentication is required the client must EHLO.
pub fn bad_hello() -> (r: Response)
    ensures r@ == bad_hello_v(), r@.wf(),
{
    mk(505, None, Action::Reply, true, "Bad HELO")
}

pub open spec fn bad_sequence_v() -> ResponseV {
    ResponseV {
        code: 503,
        enhanced: None,
        lines: seq!["Bad sequence of commands"@],
        action: Action::Reply,
        is_error: true,
    }
}

/// 503: the command is valid but cannot come in this state.
pub fn bad_sequence() -> (r: Response)
    ensures r@ == bad_sequence_v(), r@.wf(),
{
    mk(503, None, Action::Reply, true, "Bad sequence of commands")
}

pub open spec fn auth_required_v() -> ResponseV {
    ResponseV {
        code: 530,
        enhanced: Some((5, 7, 0)),
        lines: seq!["Authentication required"@],
        action: Action::Reply,
        is_error: true,
    }
}

/// 530 5.7.0: MAIL refused because the session has not authenticated.
pub fn auth_required() -> (r: Response)
    ensures r@ == auth_required_v(), r@.wf(),
{
    mk(530, Some((5, 7, 0)), Action::Reply, true, "Authentication required")
}

pub open spec fn syntax_error_v() -> ResponseV {
    ResponseV {
        code: 500,
        enhanced: None,
        lines: seq!["Command not recognized"@],
        action: Action::Reply,
        is_error: true,
    }
}

/// 500: the line is not a recognizable command.
pub fn syntax_error() -> (r: Response)
    ensures r@ == syntax_error_v(), r@.wf(),
{
    mk(500, None, Action::Reply, true, "Command not recognized")
}

pub open spec fn bad_arguments_v() -> ResponseV {
    ResponseV {
        code: 501,
        enhanced: None,
        lines: seq!["Bad command arguments"@],
        action: Action::Reply,
        is_error: true,
    }
}

/// 501: a recognized verb with arguments that cannot be parsed.
pub fn bad_arguments() -> (r: Response)
    ensures r@ == bad_arguments_v(), r@.wf(),
{
    mk(501, None, Action::Reply, true, "Bad command arguments")
}

pub open spec fn transaction_failed_v() -> ResponseV {
    ResponseV {
        code: 554,
        enhanced: None,
        lines: seq!["Transaction failed"@],
        action: Action::Reply,
        is_error: true,
    }
}

/// 554: the DATA payload could not be stored.
pub fn transaction_failed() -> (r: Response)
    ensures r@ == transaction_failed_v(), r@.wf(),
{
    mk(554, None, Action::Reply, true, "Transaction failed")
}

pub open spec fn internal_error_v() -> ResponseV {
    ResponseV {
        code: 451,
        enhanced: Some((4, 3, 0)),
        lines: seq!["Local error in processing"@],
        action: Action::Reply,
        is_error: true,
    }
}

/// 451 4.3.0: a local error while handling an otherwise valid command.
pub fn internal_error() -> (r: Response)
    ensures r@ == internal_error_v(), r@.wf(),
{
    mk(451, Some((4, 3, 0)), Action::Reply, true, "Local error in processing")
}

pub open spec fn invalid_state_v() -> ResponseV {
    ResponseV {
        code: 421,
        enhanced: None,
        lines: seq!["Internal server error"@],
        action: Action::Close,
        is_error: true,
    }
}

/// 421: the automaton cannot continue; the connection is closed.
pub fn invalid_state() -> (r: Response)
    ensures r@ == invalid_state_v(), r@.wf(),
{
    mk(421, None, Action::Close, true, "Internal server error")
}

pub open spec fn empty_response_v() -> ResponseV {
    ResponseV { code: 0, enhanced: None, lines: seq![], action: Action::NoReply, is_error: false }
}

/// The sentinel that puts nothing on the wire.
pub fn empty_response() -> (r: Response)
    ensures r@ == empty_response_v(), r@.wf(),
{
    let lines: Vec<String> = Vec::new();
    let r = Response { code: 0, enhanced: None, lines, action: Action::NoReply, is_error: false };
    proof {
        assert(r.lines.deep_view() =~= Seq::<Seq<char>>::empty());
    }
    r
}

impl Response {
    /// A custom one-line reply; the error flag follows the code.
    pub fn custom(code: u16, text: String) -> (r: Response)
        ensures
            r@ == (ResponseV {
                code,
                enhanced: None,
                lines: seq![text@],
                action: Action::Reply,
                is_error: code >= 400,
            }),
            100 <= code <= 599 ==> r@.wf(),
    {
        let is_error = code >= 400;
        let lines = vec![text];
        let r = Response { code, enhanced: None, lines, action: Action::Reply, is_error };
        proof {
            assert(r.lines.deep_view() =~= seq![text@]);
        }
        r
    }

    /// A multi-line reply: the head line followed by one line per entry.
    pub fn dynamic(code: u16, head: String, extensions: Vec<String>) -> (r: Response)
        ensures
            r@ == (ResponseV {
                code,
                enhanced: None,
                lines: seq![head@] + extensions.deep_view(),
                action: Action::Reply,
                is_error: code >= 400,
            }),
    {
        let is_error = code >= 400;
        let mut lines = vec![head];
        let ghost head_view = lines.deep_view();
        let mut rest = extensions;
        let ghost rest_view = rest.deep_view();
        lines.append(&mut rest);
        let r = Response { code, enhanced: None, lines, action: Action::Reply, is_error };
        proof {
            assert(head_view =~= seq![r.lines@[0]@]);
            assert(r.lines.deep_view() =~= head_view + rest_view);
        }
        r
    }
}


/// The 220 greeting the server opens a session with.
pub fn banner(server_name: &str) -> (r: Response)
    ensures
        r@ == (ResponseV {
            code: 220,
            enhanced: None,
            lines: seq![server_name@ + " ESMTP"@],
            action: Action::Reply,
            is_error: false,
        }),
{
    let text = String::from_str(server_name).concat(" ESMTP");
    let lines = vec![text];
    let r = Response { code: 220, enhanced: None, lines, action: Action::Reply, is_error: false };
    proof {
        assert(r.lines.deep_view() =~= seq![server_name@ + " ESMTP"@]);
    }
    r
}

/// The three decimal digits of a reply code.
pub open spec fn code_digits(code: u16) -> Seq<u8> {
    seq![(48 + code / 100) as u8, (48 + (code / 10) % 10) as u8, (48 + code % 10) as u8]
}

/// The wire form of the reply lines: every line but the last continues
/// with `-`, the last closes with a space.
pub open spec fn wire_lines(code: u16, lines: Seq<Seq<char>>) -> Seq<u8>
    decreases lines.len(),
{
    if lines.len() == 0 {
        seq![]
    } else {
        let sep: u8 = if lines.len() == 1 {
            32
        } else {
            45
        };
        code_digits(code) + seq![sep] + encode_utf8(lines[0]) + seq![13u8, 10u8] + wire_lines(
            code,
            lines.skip(1),
        )
    }
}

/// The bytes a response puts on the wire; nothing for `NoReply`.
pub open spec fn wire_of(v: ResponseV) -> Seq<u8> {
    if v.action is NoReply {
        seq![]
    } else if v.lines.len() == 0 {
        code_digits(v.code) + seq![32u8, 13u8, 10u8]
    } else {
        wire_lines(v.code, v.lines)
    }
}

fn push_code(out: &mut Vec<u8>, code: u16)
    ensures
        final(out)@ == old(out)@ + code_digits(code),
{
    #[verifier::truncate]
    let d1: u8 = (48 + code / 100) as u8;
    #[verifier::truncate]
    let d2: u8 = (48 + (code / 10) % 10) as u8;
    #[verifier::truncate]
    let d3: u8 = (48 + code % 10) as u8;
    out.push(d1);
    out.push(d2);
    out.push(d3);
    proof {
        assert(out@ =~= old(out)@ + code_digits(code));
    }
}

impl Response {
    /// Writes the response in its wire form.
    pub fn to_wire(&self) -> (r: Vec<u8>)
        ensures
            r@ == wire_of(self@),
    {
        let mut out: Vec<u8> = Vec::new();
        if self.action == Action::NoReply {
            proof {
                assert(out@ =~= wire_of(self@));
            }
            return out;
        }
        if self.lines.len() == 0 {
            push_code(&mut out, self.code);
            out.push(32);
            out.push(13);
            out.push(10);
            proof {
                assert(out@ =~= wire_of(self@));
            }
            return out;
        }
        let ghost all = self@.lines;
        let mut i: usize = 0;
        proof {
            assert(all.skip(0) =~= all);
            assert(out@ + wire_lines(self.code, all) =~= wire_lines(self.code, all));
        }
        while i < self.lines.len()
            invariant
                i <= self.lines@.len(),
                all == self@.lines,
                all.len() == self.lines@.len(),
                wire_lines(self.code, all) == out@ + wire_lines(self.code, all.skip(i as int)),
            decreases self.lines.len() - i,
        {
            push_code(&mut out, self.code);
            if i + 1 == self.lines.len() {
                out.push(32);
            } else {
                out.push(45);
            }
            let line: &str = self.lines[i].as_str();
            crate::parser::push_all(&mut out, line.as_bytes());
            out.push(13);
            out.push(10);
            proof {
                assert(all.skip(i as int)[0] == all[i as int]);
                assert(all[i as int] == self.lines@[i as int]@);
                assert(line.spec_bytes() == encode_utf8(all[i as int]));
                assert(all.skip(i as int).skip(1) =~= all.skip(i + 1));
                assert(out@ + wire_lines(self.code, all.skip(i + 1)) =~= wire_lines(
                    self.code,
                    all,
                ));
            }
            i = i + 1;
        }
        proof {
            assert(all.skip(i as int).len() == 0);
            assert(out@ + wire_lines(self.code, all.skip(i as int)) =~= out@);
        }
        out
    }
}

} // verus!
