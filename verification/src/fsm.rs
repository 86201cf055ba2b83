//! The SMTP session state machine: one automaton per connection. It
//! consumes parsed commands, consults the embedder's [`Handler`] for
//! policy, and produces the response together with the next phase.
//!
//! The whole transition table is written down once, as the spec function
//! [`step`]; the executable machine is proved to follow it. Where a
//! transition consults the handler, `step` takes the handler's response
//! as an oracle argument: everything the machine guarantees holds for
//! every response the handler could return.

use vstd::prelude::*;
use crate::smtp::{Cmd, CmdV, AuthMechanism};
use crate::response::{Action, Response, ResponseV};
use crate::response::{ok, ok_v, goodbye, goodbye_v, start_data, start_data_v, start_tls, start_tls_v,
    empty_response, empty_response_v, verify_response, verify_response_v, bad_hello, bad_hello_v,
    bad_sequence, bad_sequence_v, auth_required, auth_required_v, invalid_state, invalid_state_v,
    transaction_failed, transaction_failed_v, empty_auth_challenge, empty_auth_challenge_v,
    username_challenge, username_challenge_v, password_challenge, password_challenge_v};
use crate::parser;

verus! {

/// Whether TLS is configured, offered, or already running.
#[derive(Clone, Copy, Debug, PartialEq, Eq, Structural)]
pub enum TlsState {
    Unavailable,
    Inactive,
    Active,
}

/// Whether authentication is configured, still owed, or done.
#[derive(Clone, Copy, Debug, PartialEq, Eq, Structural)]
pub enum AuthState {
    Unavailable,
    RequiresAuth,
    Authenticated,
}

/// The automaton's nodes, without their payloads; what tests observe.
#[derive(Clone, Copy, Debug, PartialEq, Eq, Structural)]
pub enum SmtpState {
    Invalid,
    Idle,
    Hello,
    HelloAuth,
    Auth,
    Mail,
    Rcpt,
    Data,
}

/// Mathematical model of a [`Phase`].
pub ghost enum PhaseV {
    Invalid,
    Idle,
    Hello { domain: Seq<u8> },
    HelloAuth { domain: Seq<u8> },
    Auth { domain: Seq<u8>, mechanism: AuthMechanism, username: Option<Seq<u8>> },
    Mail { domain: Seq<u8>, reverse_path: Seq<u8>, is8bit: bool },
    Rcpt { domain: Seq<u8>, reverse_path: Seq<u8>, is8bit: bool, forward_path: Seq<Seq<u8>> },
    Data { domain: Seq<u8>, has_error: bool },
}

/// The automaton's current node, carrying exactly the envelope fields
/// that are valid in it.
pub enum Phase {
    /// The session has terminated; nothing more is accepted.
    Invalid,
    /// Awaiting HELO or EHLO; also the state right after a TLS upgrade.
    Idle,
    /// Greeted, and no (further) authentication is owed.
    Hello { domain: Vec<u8> },
    /// Greeted, but authentication is owed before MAIL.
    HelloAuth { domain: Vec<u8> },
    /// Inside a SASL exchange.
    Auth { domain: Vec<u8>, mechanism: AuthMechanism, username: Option<Vec<u8>> },
    /// MAIL accepted; awaiting the first RCPT.
    Mail { domain: Vec<u8>, reverse_path: Vec<u8>, is8bit: bool },
    /// At least one RCPT accepted; awaiting more RCPT or DATA.
    Rcpt { domain: Vec<u8>, reverse_path: Vec<u8>, is8bit: bool, forward_path: Vec<Vec<u8>> },
    /// Receiving the payload, line by line.
    Data { domain: Vec<u8>, has_error: bool },
}

impl View for Phase {
    type V = PhaseV;

    open spec fn view(&self) -> PhaseV {
        match self {
            Phase::Invalid => PhaseV::Invalid,
            Phase::Idle => PhaseV::Idle,
            Phase::Hello { domain } => PhaseV::Hello { domain: domain@ },
            Phase::HelloAuth { domain } => PhaseV::HelloAuth { domain: domain@ },
            Phase::Auth { domain, mechanism, username } => PhaseV::Auth {
                domain: domain@,
                mechanism: *mechanism,
                username: match username {
                    Some(u) => Some(u@),
                    None => None,
                },
            },
            Phase::Mail { domain, reverse_path, is8bit } => PhaseV::Mail {
                domain: domain@,
                reverse_path: reverse_path@,
                is8bit: *is8bit,
            },
            Phase::Rcpt { domain, reverse_path, is8bit, forward_path } => PhaseV::Rcpt {
                domain: domain@,
                reverse_path: reverse_path@,
                is8bit: *is8bit,
                forward_path: forward_path.deep_view(),
            },
            Phase::Data { domain, has_error } => PhaseV::Data {
                domain: domain@,
                has_error: *has_error,
            },
        }
    }
}

/// The view of an optional byte string.
pub open spec fn opt_bytes_view(u: Option<Vec<u8>>) -> Option<Seq<u8>> {
    match u {
        Some(x) => Some(x@),
        None => None,
    }
}

/// The node a phase belongs to.
pub open spec fn phase_id(p: PhaseV) -> SmtpState {
    match p {
        PhaseV::Invalid => SmtpState::Invalid,
        PhaseV::Idle => SmtpState::Idle,
        PhaseV::Hello { .. } => SmtpState::Hello,
        PhaseV::HelloAuth { .. } => SmtpState::HelloAuth,
        PhaseV::Auth { .. } => SmtpState::Auth,
        PhaseV::Mail { .. } => SmtpState::Mail,
        PhaseV::Rcpt { .. } => SmtpState::Rcpt,
        PhaseV::Data { .. } => SmtpState::Data,
    }
}

/// The embedder's policy and storage hooks. The machine forwards each
/// returned response to the client verbatim; authentication succeeds
/// exactly when the returned code is 235.
pub trait Handler {
    /// Called on HELO and EHLO with the peer address and the domain.
    fn helo(&mut self, ip: &[u8], domain: &[u8]) -> Response {
        ok()
    }

    /// Called on MAIL with the peer address, HELO domain and reverse path.
    fn mail(&mut self, ip: &[u8], domain: &[u8], reverse_path: &[u8]) -> Response {
        ok()
    }

    /// Called on each RCPT with the forward path.
    fn rcpt(&mut self, forward_path: &[u8]) -> Response {
        ok()
    }

    /// Called with the three fields of a SASL PLAIN payload.
    fn auth_plain(&mut self, authorization_id: &[u8], authentication_id: &[u8], password: &[u8]) -> Response {
        ok()
    }

    /// Called with the two fields of a completed LOGIN exchange.
    fn auth_login(&mut self, username: &[u8], password: &[u8]) -> Response {
        ok()
    }

    /// Called when DATA is accepted, with the whole envelope.
    fn data_start(&mut self, domain: &[u8], reverse_path: &[u8], is8bit: bool, forward_path: &Vec<Vec<u8>>) -> Response {
        ok()
    }

    /// Called with each unstuffed payload line.
    fn data(&mut self, buf: &[u8]) -> Result<(), Response> {
        Ok(())
    }

    /// Called when the payload ended without a write error.
    fn data_end(&mut self) -> Response {
        ok()
    }
}

/// Mathematical model of a [`StateMachine`].
pub ghost struct SsmView {
    pub ip: Seq<u8>,
    pub auth_plain: bool,
    pub auth_login: bool,
    pub insecure_allow_plaintext_auth: bool,
    pub auth_state: AuthState,
    pub tls: TlsState,
    pub phase: PhaseV,
}

/// One transition's outcome: the response and the machine afterwards.
pub ghost struct StepRes {
    pub resp: ResponseV,
    pub next: SsmView,
}

/// Authentication commands are allowed only over TLS, unless the
/// embedder explicitly allowed plaintext authentication.
pub open spec fn allow_auth(v: SsmView) -> bool {
    v.insecure_allow_plaintext_auth || v.tls is Active
}

pub open spec fn allow_auth_plain(v: SsmView) -> bool {
    v.auth_plain && allow_auth(v)
}

pub open spec fn allow_auth_login(v: SsmView) -> bool {
    v.auth_login && allow_auth(v)
}

/// The same machine in another phase.
pub open spec fn with_phase(v: SsmView, p: PhaseV) -> SsmView {
    SsmView { phase: p, ..v }
}

/// The capability lines the EHLO reply advertises.
pub open spec fn ehlo_lines(v: SsmView) -> Seq<Seq<char>> {
    let base = seq!["server offers extensions:"@, "8BITMIME"@];
    let with_tls = if v.tls is Inactive {
        base + seq!["STARTTLS"@]
    } else {
        base
    };
    if allow_auth(v) {
        if v.auth_plain && v.auth_login {
            with_tls + seq!["AUTH PLAIN LOGIN"@]
        } else if v.auth_plain {
            with_tls + seq!["AUTH PLAIN"@]
        } else if v.auth_login {
            with_tls + seq!["AUTH LOGIN"@]
        } else {
            with_tls
        }
    } else {
        with_tls
    }
}

pub open spec fn ehlo_response_v(v: SsmView) -> ResponseV {
    ResponseV { code: 250, enhanced: None, lines: ehlo_lines(v), action: Action::Reply, is_error: false }
}

/// The shared decision rule: a closing response terminates the session,
/// an error keeps the current phase, anything else enters the successor.
pub open spec fn advance(v: SsmView, rv: ResponseV, succ: PhaseV) -> StepRes {
    if rv.action is Close {
        StepRes { resp: rv, next: with_phase(v, PhaseV::Invalid) }
    } else if rv.is_error {
        StepRes { resp: rv, next: v }
    } else {
        StepRes { resp: rv, next: with_phase(v, succ) }
    }
}

pub open spec fn stay(v: SsmView, rv: ResponseV) -> StepRes {
    StepRes { resp: rv, next: v }
}

/// RSET collapses to the greeted phase that matches the auth
/// configuration, keeping the HELO domain.
pub open spec fn rset_phase(v: SsmView, domain: Seq<u8>) -> PhaseV {
    if v.auth_state is Unavailable {
        PhaseV::Hello { domain }
    } else {
        PhaseV::HelloAuth { domain }
    }
}

/// An authentication attempt: the machine records whether the handler
/// said 235, then the decision rule runs; a failed attempt stays put.
pub open spec fn auth_result(v: SsmView, o: ResponseV, domain: Seq<u8>) -> StepRes {
    let v1 = SsmView {
        auth_state: if o.code == 235 {
            AuthState::Authenticated
        } else {
            AuthState::RequiresAuth
        },
        ..v
    };
    advance(v1, o, PhaseV::Hello { domain })
}

/// A completed SASL exchange: like [`auth_result`], but a failure falls
/// back from the Auth phase to HelloAuth.
pub open spec fn auth_sasl_result(v: SsmView, o: ResponseV, domain: Seq<u8>) -> StepRes {
    let v1 = SsmView {
        auth_state: if o.code == 235 {
            AuthState::Authenticated
        } else {
            AuthState::RequiresAuth
        },
        ..v
    };
    if o.action is Close {
        StepRes { resp: o, next: with_phase(v1, PhaseV::Invalid) }
    } else if o.is_error {
        StepRes { resp: o, next: with_phase(v1, PhaseV::HelloAuth { domain }) }
    } else {
        StepRes { resp: o, next: with_phase(v1, PhaseV::Hello { domain }) }
    }
}

/// The commands every waiting phase understands: QUIT, HELO, EHLO and
/// NOOP; anything else is out of sequence. The oracle `o` is what
/// `Handler::helo` returned, where it is consulted.
pub open spec fn default_step(v: SsmView, c: CmdV, o: ResponseV) -> StepRes {
    match c {
        CmdV::Quit => advance(v, goodbye_v(), PhaseV::Invalid),
        CmdV::Helo { domain } => if v.auth_state is Unavailable {
            advance(v, o, PhaseV::Hello { domain })
        } else {
            // with authentication configured the client must EHLO
            stay(v, bad_hello_v())
        },
        CmdV::Ehlo { domain } => {
            let r = if o.code == 250 {
                ehlo_response_v(v)
            } else {
                o
            };
            let succ = if v.auth_state is Unavailable {
                PhaseV::Hello { domain }
            } else {
                PhaseV::HelloAuth { domain }
            };
            advance(v, r, succ)
        },
        CmdV::Noop => stay(v, ok_v()),
        _ => stay(v, bad_sequence_v()),
    }
}

/// The transition table: what one command does to the machine. The
/// oracle `o` stands for the response of whichever handler method the
/// transition consults; transitions that consult none ignore it.
pub open spec fn step(v: SsmView, c: CmdV, o: ResponseV) -> StepRes {
    match v.phase {
        PhaseV::Invalid => stay(v, invalid_state_v()),
        PhaseV::Idle => match c {
            CmdV::StartedTls => StepRes {
                resp: empty_response_v(),
                next: SsmView {
                    tls: TlsState::Active,
                    auth_state: if v.auth_state is Unavailable {
                        AuthState::Unavailable
                    } else {
                        AuthState::RequiresAuth
                    },
                    ..v
                },
            },
            CmdV::Rset => stay(v, ok_v()),
            _ => default_step(v, c, o),
        },
        PhaseV::Hello { domain } => match c {
            CmdV::Mail { reverse_path, is8bit } => if v.auth_state is RequiresAuth {
                stay(v, auth_required_v())
            } else {
                advance(v, o, PhaseV::Mail { domain, reverse_path, is8bit })
            },
            CmdV::StartTls => if v.tls is Inactive {
                advance(v, start_tls_v(), PhaseV::Idle)
            } else {
                default_step(v, c, o)
            },
            CmdV::Vrfy => stay(v, verify_response_v()),
            CmdV::Rset => StepRes { resp: ok_v(), next: with_phase(v, rset_phase(v, domain)) },
            _ => default_step(v, c, o),
        },
        PhaseV::HelloAuth { domain } => match c {
            CmdV::StartTls => advance(v, start_tls_v(), PhaseV::Idle),
            CmdV::AuthPlain { .. } => if allow_auth_plain(v) {
                auth_result(v, o, domain)
            } else {
                default_step(v, c, o)
            },
            CmdV::AuthPlainEmpty => if allow_auth_plain(v) {
                advance(
                    v,
                    empty_auth_challenge_v(),
                    PhaseV::Auth { domain, mechanism: AuthMechanism::Plain, username: None },
                )
            } else {
                default_step(v, c, o)
            },
            CmdV::AuthLogin { username } => if allow_auth_login(v) {
                advance(
                    v,
                    password_challenge_v(),
                    PhaseV::Auth { domain, mechanism: AuthMechanism::Login, username: Some(username) },
                )
            } else {
                default_step(v, c, o)
            },
            CmdV::AuthLoginEmpty => if allow_auth_login(v) {
                advance(
                    v,
                    username_challenge_v(),
                    PhaseV::Auth { domain, mechanism: AuthMechanism::Login, username: None },
                )
            } else {
                default_step(v, c, o)
            },
            CmdV::Mail { .. } => stay(v, auth_required_v()),
            CmdV::Rset => StepRes { resp: ok_v(), next: with_phase(v, rset_phase(v, domain)) },
            _ => default_step(v, c, o),
        },
        PhaseV::Auth { domain, mechanism, username } => match c {
            CmdV::AuthResponse { response } => match mechanism {
                AuthMechanism::Plain => auth_sasl_result(v, o, domain),
                AuthMechanism::Login => match username {
                    Some(_u) => auth_sasl_result(v, o, domain),
                    None => StepRes {
                        resp: password_challenge_v(),
                        next: with_phase(
                            v,
                            PhaseV::Auth { domain, mechanism, username: Some(response) },
                        ),
                    },
                },
            },
            _ => stay(v, bad_sequence_v()),
        },
        PhaseV::Mail { domain, reverse_path, is8bit } => match c {
            CmdV::Rcpt { forward_path } => advance(
                v,
                o,
                PhaseV::Rcpt { domain, reverse_path, is8bit, forward_path: seq![forward_path] },
            ),
            CmdV::Rset => StepRes { resp: ok_v(), next: with_phase(v, rset_phase(v, domain)) },
            _ => default_step(v, c, o),
        },
        PhaseV::Rcpt { domain, reverse_path, is8bit, forward_path } => match c {
            CmdV::Data => {
                let r = if o.is_error {
                    o
                } else {
                    start_data_v()
                };
                advance(v, r, PhaseV::Data { domain, has_error: false })
            },
            CmdV::Rcpt { forward_path: fp2 } => advance(
                v,
                o,
                PhaseV::Rcpt {
                    domain,
                    reverse_path,
                    is8bit,
                    forward_path: forward_path.push(fp2),
                },
            ),
            CmdV::Rset => StepRes { resp: ok_v(), next: with_phase(v, rset_phase(v, domain)) },
            _ => default_step(v, c, o),
        },
        PhaseV::Data { domain, has_error } => match c {
            CmdV::DataEnd => if has_error {
                // the error was already reported; reply nothing more
                StepRes { resp: empty_response_v(), next: with_phase(v, PhaseV::Hello { domain }) }
            } else if o.action is Close {
                StepRes { resp: o, next: with_phase(v, PhaseV::Invalid) }
            } else if o.is_error {
                // remember the failure so the end is not reported twice
                StepRes { resp: o, next: with_phase(v, PhaseV::Data { domain, has_error: true }) }
            } else {
                StepRes { resp: o, next: with_phase(v, PhaseV::Hello { domain }) }
            },
            _ => stay(v, bad_sequence_v()),
        },
    }
}

/// Whether a transition outcome is the given response and next machine.
pub open spec fn step_to(s: StepRes, rv: ResponseV, v: SsmView) -> bool {
    s.resp == rv && s.next == v
}

/// When a command makes the machine call `Handler::data_start`.
pub open spec fn fires_data_start(v: SsmView, c: CmdV) -> bool {
    v.phase is Rcpt && c is Data
}

/// When a command makes the machine call `Handler::data_end`.
pub open spec fn fires_data_end(v: SsmView, c: CmdV) -> bool {
    match v.phase {
        PhaseV::Data { has_error, .. } => !has_error && c is DataEnd,
        _ => false,
    }
}

/// The literal `.` line that ends the DATA payload.
pub open spec fn dot_line() -> Seq<u8> {
    seq![46u8, 13u8, 10u8]
}

/// Dot-unstuffing: exactly one leading `.` is removed.
pub open spec fn unstuff(line: Seq<u8>) -> Seq<u8> {
    if line.len() > 0 && line[0] == 46 {
        line.skip(1)
    } else {
        line
    }
}

/// What [`StateMachine::process_line`] hands back: a command for
/// [`StateMachine::command`], or a response to send as it is.
pub enum LineOutcome {
    Command(Cmd),
    Reply(Response),
}

/// One connection's automaton, with its capability state.
pub struct StateMachine {
    pub ip: Vec<u8>,
    pub auth_plain: bool,
    pub auth_login: bool,
    pub insecure_allow_plaintext_auth: bool,
    pub auth_state: AuthState,
    pub tls: TlsState,
    pub phase: Phase,
    /// Every byte string handed to `Handler::data`, in order.
    pub data_log: Ghost<Seq<Seq<u8>>>,
    /// How often `Handler::data_start` has been called.
    pub data_starts: Ghost<nat>,
    /// How often `Handler::data_end` has been called.
    pub data_ends: Ghost<nat>,
}

impl View for StateMachine {
    type V = SsmView;

    open spec fn view(&self) -> SsmView {
        SsmView {
            ip: self.ip@,
            auth_plain: self.auth_plain,
            auth_login: self.auth_login,
            insecure_allow_plaintext_auth: self.insecure_allow_plaintext_auth,
            auth_state: self.auth_state,
            tls: self.tls,
            phase: self.phase@,
        }
    }
}

fn contains_mech(ms: &Vec<AuthMechanism>, m: AuthMechanism) -> (r: bool)
    ensures
        r == ms@.contains(m),
{
    let mut i: usize = 0;
    while i < ms.len()
        invariant
            i <= ms@.len(),
            forall|j: int| 0 <= j < i ==> ms@[j] != m,
        decreases ms.len() - i,
    {
        if ms[i] == m {
            return true;
        }
        i = i + 1;
    }
    proof {
        assert(!ms@.contains(m));
    }
    false
}

impl StateMachine {
    /// A fresh automaton for one connection, in the Idle phase.
    pub fn new(
        ip: Vec<u8>,
        auth_mechanisms: Vec<AuthMechanism>,
        allow_start_tls: bool,
        insecure_allow_plaintext_auth: bool,
    ) -> (r: StateMachine)
        ensures
            r@.phase is Idle,
            r@.ip == ip@,
            r@.tls == (if allow_start_tls {
                TlsState::Inactive
            } else {
                TlsState::Unavailable
            }),
            r@.auth_state == (if auth_mechanisms@.len() == 0 {
                AuthState::Unavailable
            } else {
                AuthState::RequiresAuth
            }),
            r@.auth_plain == auth_mechanisms@.contains(AuthMechanism::Plain),
            r@.auth_login == auth_mechanisms@.contains(AuthMechanism::Login),
            r@.insecure_allow_plaintext_auth == insecure_allow_plaintext_auth,
            r.data_log@ == Seq::<Seq<u8>>::empty(),
            r.data_starts@ == 0,
            r.data_ends@ == 0,
    {
        let auth_state = if auth_mechanisms.len() == 0 {
            AuthState::Unavailable
        } else {
            AuthState::RequiresAuth
        };
        let tls = if allow_start_tls {
            TlsState::Inactive
        } else {
            TlsState::Unavailable
        };
        let auth_plain = contains_mech(&auth_mechanisms, AuthMechanism::Plain);
        let auth_login = contains_mech(&auth_mechanisms, AuthMechanism::Login);
        StateMachine {
            ip,
            auth_plain,
            auth_login,
            insecure_allow_plaintext_auth,
            auth_state,
            tls,
            phase: Phase::Idle,
            data_log: Ghost(Seq::empty()),
            data_starts: Ghost(0),
            data_ends: Ghost(0),
        }
    }

    /// The automaton's current node.
    pub fn current_state(&self) -> (r: SmtpState)
        ensures
            r == phase_id(self@.phase),
    {
        match &self.phase {
            Phase::Invalid => SmtpState::Invalid,
            Phase::Idle => SmtpState::Idle,
            Phase::Hello { .. } => SmtpState::Hello,
            Phase::HelloAuth { .. } => SmtpState::HelloAuth,
            Phase::Auth { .. } => SmtpState::Auth,
            Phase::Mail { .. } => SmtpState::Mail,
            Phase::Rcpt { .. } => SmtpState::Rcpt,
            Phase::Data { .. } => SmtpState::Data,
        }
    }

    fn allow_auth(&self) -> (r: bool)
        ensures
            r == allow_auth(self@),
    {
        self.insecure_allow_plaintext_auth || self.tls == TlsState::Active
    }

    fn allow_auth_plain(&self) -> (r: bool)
        ensures
            r == allow_auth_plain(self@),
    {
        self.auth_plain && self.allow_auth()
    }

    fn allow_auth_login(&self) -> (r: bool)
        ensures
            r == allow_auth_login(self@),
    {
        self.auth_login && self.allow_auth()
    }

    /// The EHLO capability listing for this machine's configuration.
    fn ehlo_response(&self) -> (r: Response)
        ensures
            r@ == ehlo_response_v(self@),
    {
        let mut extensions: Vec<String> = Vec::new();
        extensions.push("8BITMIME".to_owned());
        if self.tls == TlsState::Inactive {
            extensions.push("STARTTLS".to_owned());
        }
        if self.allow_auth() {
            if self.auth_plain && self.auth_login {
                extensions.push("AUTH PLAIN LOGIN".to_owned());
            } else if self.auth_plain {
                extensions.push("AUTH PLAIN".to_owned());
            } else if self.auth_login {
                extensions.push("AUTH LOGIN".to_owned());
            }
        }
        let r = Response::dynamic(250, "server offers extensions:".to_owned(), extensions);
        proof {
            assert(r@.lines =~= ehlo_lines(self@));
        }
        r
    }

    /// The waiting-phase defaults: QUIT, HELO, EHLO, NOOP, else 503.
    /// `current` is the phase the machine stood in.
    fn default_command<H: Handler>(&mut self, handler: &mut H, current: Phase, cmd: Cmd) -> (r: Response)
        ensures
            exists|o: ResponseV|
                step_to(
                    #[trigger] default_step(with_phase(old(self)@, current@), cmd@, o),
                    r@,
                    final(self)@,
                ),
            final(self).data_log == old(self).data_log,
            final(self).data_starts == old(self).data_starts,
            final(self).data_ends == old(self).data_ends,
    {
        let ghost pre = with_phase(self@, current@);
        match cmd {
            Cmd::Quit => {
                self.phase = Phase::Invalid;
                let r = goodbye();
                proof {
                    assert(default_step(pre, cmd@, r@) == StepRes { resp: r@, next: self@ });
                }
                r
            },
            Cmd::Helo { domain } => {
                if self.auth_state == AuthState::Unavailable {
                    let res = handler.helo(self.ip.as_slice(), domain.as_slice());
                    let ghost ov = res@;
                    if res.action == Action::Close {
                        self.phase = Phase::Invalid;
                    } else if res.is_error {
                        self.phase = current;
                    } else {
                        self.phase = Phase::Hello { domain };
                    }
                    proof {
                        assert(default_step(pre, cmd@, ov) == StepRes { resp: res@, next: self@ });
                    }
                    res
                } else {
                    self.phase = current;
                    let r = bad_hello();
                    proof {
                        assert(default_step(pre, cmd@, r@) == StepRes { resp: r@, next: self@ });
                    }
                    r
                }
            },
            Cmd::Ehlo { domain } => {
                let hres = handler.helo(self.ip.as_slice(), domain.as_slice());
                let ghost ov = hres@;
                let res = if hres.code == 250 {
                    self.ehlo_response()
                } else {
                    hres
                };
                proof {
                    assert(ehlo_response_v(self@) == ehlo_response_v(pre));
                }
                if res.action == Action::Close {
                    self.phase = Phase::Invalid;
                } else if res.is_error {
                    self.phase = current;
                } else if self.auth_state == AuthState::Unavailable {
                    self.phase = Phase::Hello { domain };
                } else {
                    self.phase = Phase::HelloAuth { domain };
                }
                proof {
                    assert(default_step(pre, cmd@, ov) == StepRes { resp: res@, next: self@ });
                }
                res
            },
            Cmd::Noop => {
                self.phase = current;
                let r = ok();
                proof {
                    assert(default_step(pre, cmd@, r@) == StepRes { resp: r@, next: self@ });
                }
                r
            },
            _ => {
                self.phase = current;
                let r = bad_sequence();
                proof {
                    assert(default_step(pre, cmd@, r@) == StepRes { resp: r@, next: self@ });
                }
                r
            },
        }
    }
    fn cmd_idle<H: Handler>(&mut self, handler: &mut H, cmd: Cmd) -> (r: Response)
        ensures
            exists|o: ResponseV|
                step_to(#[trigger] step(with_phase(old(self)@, PhaseV::Idle), cmd@, o), r@, final(self)@),
            final(self).data_log == old(self).data_log,
            final(self).data_starts == old(self).data_starts,
            final(self).data_ends == old(self).data_ends,
    {
        let ghost pre = with_phase(self@, PhaseV::Idle);
        match cmd {
            Cmd::StartedTls => {
                self.tls = TlsState::Active;
                if !(self.auth_state == AuthState::Unavailable) {
                    self.auth_state = AuthState::RequiresAuth;
                }
                self.phase = Phase::Idle;
                let r = empty_response();
                proof {
                    assert(step(pre, cmd@, r@) == StepRes { resp: r@, next: self@ });
                }
                r
            },
            Cmd::Rset => {
                self.phase = Phase::Idle;
                let r = ok();
                proof {
                    assert(step(pre, cmd@, r@) == StepRes { resp: r@, next: self@ });
                }
                r
            },
            _ => {
                let r = self.default_command(handler, Phase::Idle, cmd);
                proof {
                    let ov = choose|o: ResponseV|
                        step_to(#[trigger] default_step(pre, cmd@, o), r@, self@);
                    assert(step(pre, cmd@, ov) == StepRes { resp: r@, next: self@ });
                }
                r
            },
        }
    }

    fn cmd_hello<H: Handler>(&mut self, handler: &mut H, domain: Vec<u8>, cmd: Cmd) -> (r: Response)
        ensures
            exists|o: ResponseV|
                step_to(
                    #[trigger] step(
                        with_phase(old(self)@, (PhaseV::Hello { domain: domain@ })),
                        cmd@,
                        o,
                    ),
                    r@,
                    final(self)@,
                ),
            final(self).data_log == old(self).data_log,
            final(self).data_starts == old(self).data_starts,
            final(self).data_ends == old(self).data_ends,
    {
        let ghost pre = with_phase(self@, PhaseV::Hello { domain: domain@ });
        match cmd {
            Cmd::Mail { reverse_path, is8bit } => {
                if self.auth_state == AuthState::RequiresAuth {
                    self.phase = Phase::Hello { domain };
                    let r = auth_required();
                    proof {
                        assert(step(pre, cmd@, r@) == StepRes { resp: r@, next: self@ });
                    }
                    r
                } else {
                    let res = handler.mail(
                        self.ip.as_slice(),
                        domain.as_slice(),
                        reverse_path.as_slice(),
                    );
                    let ghost ov = res@;
                    if res.action == Action::Close {
                        self.phase = Phase::Invalid;
                    } else if res.is_error {
                        self.phase = Phase::Hello { domain };
                    } else {
                        self.phase = Phase::Mail { domain, reverse_path, is8bit };
                    }
                    proof {
                        assert(step(pre, cmd@, ov) == StepRes { resp: res@, next: self@ });
                    }
                    res
                }
            },
            Cmd::StartTls => {
                if self.tls == TlsState::Inactive {
                    self.phase = Phase::Idle;
                    let r = start_tls();
                    proof {
                        assert(step(pre, cmd@, r@) == StepRes { resp: r@, next: self@ });
                    }
                    r
                } else {
                    let r = self.default_command(handler, Phase::Hello { domain }, cmd);
                    proof {
                        let ov = choose|o: ResponseV|
                            step_to(#[trigger] default_step(pre, cmd@, o), r@, self@);
                        assert(step(pre, cmd@, ov) == StepRes { resp: r@, next: self@ });
                    }
                    r
                }
            },
            Cmd::Vrfy => {
                self.phase = Phase::Hello { domain };
                let r = verify_response();
                proof {
                    assert(step(pre, cmd@, r@) == StepRes { resp: r@, next: self@ });
                }
                r
            },
            Cmd::Rset => {
                if self.auth_state == AuthState::Unavailable {
                    self.phase = Phase::Hello { domain };
                } else {
                    self.phase = Phase::HelloAuth { domain };
                }
                let r = ok();
                proof {
                    assert(step(pre, cmd@, r@) == StepRes { resp: r@, next: self@ });
                }
                r
            },
            _ => {
                let r = self.default_command(handler, Phase::Hello { domain }, cmd);
                proof {
                    let ov = choose|o: ResponseV|
                        step_to(#[trigger] default_step(pre, cmd@, o), r@, self@);
                    assert(step(pre, cmd@, ov) == StepRes { resp: r@, next: self@ });
                }
                r
            },
        }
    }

    #[verifier::rlimit(100)]
    fn cmd_hello_auth<H: Handler>(&mut self, handler: &mut H, domain: Vec<u8>, cmd: Cmd) -> (r: Response)
        ensures
            exists|o: ResponseV|
                step_to(
                    #[trigger] step(
                        with_phase(old(self)@, (PhaseV::HelloAuth { domain: domain@ })),
                        cmd@,
                        o,
                    ),
                    r@,
                    final(self)@,
                ),
            final(self).data_log == old(self).data_log,
            final(self).data_starts == old(self).data_starts,
            final(self).data_ends == old(self).data_ends,
    {
        let ghost pre = with_phase(self@, PhaseV::HelloAuth { domain: domain@ });
        match cmd {
            Cmd::StartTls => {
                self.phase = Phase::Idle;
                let r = start_tls();
                proof {
                    assert(step(pre, cmd@, r@) == StepRes { resp: r@, next: self@ });
                }
                r
            },
            Cmd::AuthPlain { authorization_id, authentication_id, password } => {
                if self.allow_auth_plain() {
                    let res = handler.auth_plain(
                        authorization_id.as_slice(),
                        authentication_id.as_slice(),
                        password.as_slice(),
                    );
                    let ghost ov = res@;
                    self.auth_state = if res.code == 235 {
                        AuthState::Authenticated
                    } else {
                        AuthState::RequiresAuth
                    };
                    if res.action == Action::Close {
                        self.phase = Phase::Invalid;
                    } else if res.is_error {
                        self.phase = Phase::HelloAuth { domain };
                    } else {
                        self.phase = Phase::Hello { domain };
                    }
                    proof {
                        assert(step(pre, cmd@, ov) == StepRes { resp: res@, next: self@ });
                    }
                    res
                } else {
                    let r = self.default_command(
                        handler,
                        Phase::HelloAuth { domain },
                        Cmd::AuthPlain { authorization_id, authentication_id, password },
                    );
                    proof {
                        let ov = choose|o: ResponseV|
                            step_to(#[trigger] default_step(pre, cmd@, o), r@, self@);
                        assert(step(pre, cmd@, ov) == StepRes { resp: r@, next: self@ });
                    }
                    r
                }
            },
            Cmd::AuthPlainEmpty => {
                if self.allow_auth_plain() {
                    self.phase = Phase::Auth {
                        domain,
                        mechanism: AuthMechanism::Plain,
                        username: None,
                    };
                    let r = empty_auth_challenge();
                    proof {
                        assert(step(pre, cmd@, r@) == StepRes { resp: r@, next: self@ });
                    }
                    r
                } else {
                    let r = self.default_command(handler, Phase::HelloAuth { domain }, cmd);
                    proof {
                        let ov = choose|o: ResponseV|
                            step_to(#[trigger] default_step(pre, cmd@, o), r@, self@);
                        assert(step(pre, cmd@, ov) == StepRes { resp: r@, next: self@ });
                    }
                    r
                }
            },
            Cmd::AuthLogin { username } => {
                if self.allow_auth_login() {
                    self.phase = Phase::Auth {
                        domain,
                        mechanism: AuthMechanism::Login,
                        username: Some(username),
                    };
                    let r = password_challenge();
                    proof {
                        assert(step(pre, cmd@, r@) == StepRes { resp: r@, next: self@ });
                    }
                    r
                } else {
                    let r = self.default_command(
                        handler,
                        Phase::HelloAuth { domain },
                        Cmd::AuthLogin { username },
                    );
                    proof {
                        let ov = choose|o: ResponseV|
                            step_to(#[trigger] default_step(pre, cmd@, o), r@, self@);
                        assert(step(pre, cmd@, ov) == StepRes { resp: r@, next: self@ });
                    }
                    r
                }
            },
            Cmd::AuthLoginEmpty => {
                if self.allow_auth_login() {
                    self.phase = Phase::Auth {
                        domain,
                        mechanism: AuthMechanism::Login,
                        username: None,
                    };
                    let r = username_challenge();
                    proof {
                        assert(step(pre, cmd@, r@) == StepRes { resp: r@, next: self@ });
                    }
                    r
                } else {
                    let r = self.default_command(handler, Phase::HelloAuth { domain }, cmd);
                    proof {
                        let ov = choose|o: ResponseV|
                            step_to(#[trigger] default_step(pre, cmd@, o), r@, self@);
                        assert(step(pre, cmd@, ov) == StepRes { resp: r@, next: self@ });
                    }
                    r
                }
            },
            Cmd::Mail { .. } => {
                self.phase = Phase::HelloAuth { domain };
                let r = auth_required();
                proof {
                    assert(step(pre, cmd@, r@) == StepRes { resp: r@, next: self@ });
                }
                r
            },
            Cmd::Rset => {
                if self.auth_state == AuthState::Unavailable {
                    self.phase = Phase::Hello { domain };
                } else {
                    self.phase = Phase::HelloAuth { domain };
                }
                let r = ok();
                proof {
                    assert(step(pre, cmd@, r@) == StepRes { resp: r@, next: self@ });
                }
                r
            },
            _ => {
                let r = self.default_command(handler, Phase::HelloAuth { domain }, cmd);
                proof {
                    let ov = choose|o: ResponseV|
                        step_to(#[trigger] default_step(pre, cmd@, o), r@, self@);
                    assert(step(pre, cmd@, ov) == StepRes { resp: r@, next: self@ });
                }
                r
            },
        }
    }

    fn cmd_auth<H: Handler>(
        &mut self,
        handler: &mut H,
        domain: Vec<u8>,
        mechanism: AuthMechanism,
        username: Option<Vec<u8>>,
        cmd: Cmd,
    ) -> (r: Response)
        ensures
            exists|o: ResponseV|
                step_to(
                    #[trigger] step(
                        with_phase(
                            old(self)@,
                            (PhaseV::Auth {
                                domain: domain@,
                                mechanism,
                                username: opt_bytes_view(username),
                            }),
                        ),
                        cmd@,
                        o,
                    ),
                    r@,
                    final(self)@,
                ),
            final(self).data_log == old(self).data_log,
            final(self).data_starts == old(self).data_starts,
            final(self).data_ends == old(self).data_ends,
    {
        let ghost pre = with_phase(
            self@,
            PhaseV::Auth {
                domain: domain@,
                mechanism,
                username: match username {
                    Some(ref u) => Some(u@),
                    None => None,
                },
            },
        );
        match cmd {
            Cmd::AuthResponse { response } => match mechanism {
                AuthMechanism::Plain => {
                    let creds = crate::sasl::decode_sasl_plain(response.as_slice());
                    let res = handler.auth_plain(
                        creds.authorization_id.as_slice(),
                        creds.authentication_id.as_slice(),
                        creds.password.as_slice(),
                    );
                    let ghost ov = res@;
                    self.auth_state = if res.code == 235 {
                        AuthState::Authenticated
                    } else {
                        AuthState::RequiresAuth
                    };
                    if res.action == Action::Close {
                        self.phase = Phase::Invalid;
                    } else if res.is_error {
                        self.phase = Phase::HelloAuth { domain };
                    } else {
                        self.phase = Phase::Hello { domain };
                    }
                    proof {
                        assert(step(pre, cmd@, ov) == StepRes { resp: res@, next: self@ });
                    }
                    res
                },
                AuthMechanism::Login => match username {
                    Some(u) => {
                        let res = handler.auth_login(u.as_slice(), response.as_slice());
                        let ghost ov = res@;
                        self.auth_state = if res.code == 235 {
                            AuthState::Authenticated
                        } else {
                            AuthState::RequiresAuth
                        };
                        if res.action == Action::Close {
                            self.phase = Phase::Invalid;
                        } else if res.is_error {
                            self.phase = Phase::HelloAuth { domain };
                        } else {
                            self.phase = Phase::Hello { domain };
                        }
                        proof {
                            assert(step(pre, cmd@, ov) == StepRes { resp: res@, next: self@ });
                        }
                        res
                    },
                    None => {
                        self.phase = Phase::Auth {
                            domain,
                            mechanism,
                            username: Some(response),
                        };
                        let r = password_challenge();
                        proof {
                            assert(step(pre, cmd@, r@) == StepRes { resp: r@, next: self@ });
                        }
                        r
                    },
                },
            },
            _ => {
                self.phase = Phase::Auth { domain, mechanism, username };
                let r = bad_sequence();
                proof {
                    assert(step(pre, cmd@, r@) == StepRes { resp: r@, next: self@ });
                }
                r
            },
        }
    }

    fn cmd_mail<H: Handler>(
        &mut self,
        handler: &mut H,
        domain: Vec<u8>,
        reverse_path: Vec<u8>,
        is8bit: bool,
        cmd: Cmd,
    ) -> (r: Response)
        ensures
            exists|o: ResponseV|
                step_to(
                    #[trigger] step(
                        with_phase(
                            old(self)@,
                            (PhaseV::Mail {
                                domain: domain@,
                                reverse_path: reverse_path@,
                                is8bit,
                            }),
                        ),
                        cmd@,
                        o,
                    ),
                    r@,
                    final(self)@,
                ),
            final(self).data_log == old(self).data_log,
            final(self).data_starts == old(self).data_starts,
            final(self).data_ends == old(self).data_ends,
    {
        let ghost pre = with_phase(
            self@,
            PhaseV::Mail { domain: domain@, reverse_path: reverse_path@, is8bit },
        );
        match cmd {
            Cmd::Rcpt { forward_path } => {
                let res = handler.rcpt(forward_path.as_slice());
                let ghost ov = res@;
                if res.action == Action::Close {
                    self.phase = Phase::Invalid;
                } else if res.is_error {
                    self.phase = Phase::Mail { domain, reverse_path, is8bit };
                } else {
                    let ghost fpv = forward_path@;
                    let mut fps: Vec<Vec<u8>> = Vec::new();
                    fps.push(forward_path);
                    proof {
                        assert(fps.deep_view() =~~= seq![fpv]);
                    }
                    self.phase = Phase::Rcpt { domain, reverse_path, is8bit, forward_path: fps };
                }
                proof {
                    assert(step(pre, cmd@, ov) == StepRes { resp: res@, next: self@ });
                }
                res
            },
            Cmd::Rset => {
                if self.auth_state == AuthState::Unavailable {
                    self.phase = Phase::Hello { domain };
                } else {
                    self.phase = Phase::HelloAuth { domain };
                }
                let r = ok();
                proof {
                    assert(step(pre, cmd@, r@) == StepRes { resp: r@, next: self@ });
                }
                r
            },
            _ => {
                let r = self.default_command(
                    handler,
                    Phase::Mail { domain, reverse_path, is8bit },
                    cmd,
                );
                proof {
                    let ov = choose|o: ResponseV|
                        step_to(#[trigger] default_step(pre, cmd@, o), r@, self@);
                    assert(step(pre, cmd@, ov) == StepRes { resp: r@, next: self@ });
                }
                r
            },
        }
    }

    fn cmd_rcpt<H: Handler>(
        &mut self,
        handler: &mut H,
        domain: Vec<u8>,
        reverse_path: Vec<u8>,
        is8bit: bool,
        forward_path: Vec<Vec<u8>>,
        cmd: Cmd,
    ) -> (r: Response)
        ensures
            exists|o: ResponseV|
                step_to(
                    #[trigger] step(
                        with_phase(
                            old(self)@,
                            (PhaseV::Rcpt {
                                domain: domain@,
                                reverse_path: reverse_path@,
                                is8bit,
                                forward_path: forward_path.deep_view(),
                            }),
                        ),
                        cmd@,
                        o,
                    ),
                    r@,
                    final(self)@,
                ),
            final(self).data_log == old(self).data_log,
            final(self).data_starts@ == old(self).data_starts@ + (
            if cmd@ is Data {
                1nat
            } else {
                0nat
            }),
            final(self).data_ends == old(self).data_ends,
    {
        let ghost pre = with_phase(
            self@,
            PhaseV::Rcpt {
                domain: domain@,
                reverse_path: reverse_path@,
                is8bit,
                forward_path: forward_path.deep_view(),
            },
        );
        match cmd {
            Cmd::Data => {
                let res = handler.data_start(
                    domain.as_slice(),
                    reverse_path.as_slice(),
                    is8bit,
                    &forward_path,
                );
                proof {
                    self.data_starts@ = self.data_starts@ + 1;
                }
                let ghost ov = res@;
                let r = if res.is_error {
                    res
                } else {
                    start_data()
                };
                if r.action == Action::Close {
                    self.phase = Phase::Invalid;
                } else if r.is_error {
                    self.phase = Phase::Rcpt { domain, reverse_path, is8bit, forward_path };
                } else {
                    self.phase = Phase::Data { domain, has_error: false };
                }
                proof {
                    assert(step(pre, cmd@, ov) == StepRes { resp: r@, next: self@ });
                }
                r
            },
            Cmd::Rcpt { forward_path: fp2 } => {
                let res = handler.rcpt(fp2.as_slice());
                let ghost ov = res@;
                if res.action == Action::Close {
                    self.phase = Phase::Invalid;
                } else if res.is_error {
                    self.phase = Phase::Rcpt { domain, reverse_path, is8bit, forward_path };
                } else {
                    let ghost before = forward_path.deep_view();
                    let ghost fpv = fp2@;
                    let mut fps = forward_path;
                    fps.push(fp2);
                    proof {
                        assert(fps.deep_view() =~~= before.push(fpv));
                    }
                    self.phase = Phase::Rcpt { domain, reverse_path, is8bit, forward_path: fps };
                }
                proof {
                    assert(step(pre, cmd@, ov) == StepRes { resp: res@, next: self@ });
                }
                res
            },
            Cmd::Rset => {
                if self.auth_state == AuthState::Unavailable {
                    self.phase = Phase::Hello { domain };
                } else {
                    self.phase = Phase::HelloAuth { domain };
                }
                let r = ok();
                proof {
                    assert(step(pre, cmd@, r@) == StepRes { resp: r@, next: self@ });
                }
                r
            },
            _ => {
                let r = self.default_command(
                    handler,
                    Phase::Rcpt { domain, reverse_path, is8bit, forward_path },
                    cmd,
                );
                proof {
                    let ov = choose|o: ResponseV|
                        step_to(#[trigger] default_step(pre, cmd@, o), r@, self@);
                    assert(step(pre, cmd@, ov) == StepRes { resp: r@, next: self@ });
                }
                r
            },
        }
    }

    fn cmd_data<H: Handler>(
        &mut self,
        handler: &mut H,
        domain: Vec<u8>,
        has_error: bool,
        cmd: Cmd,
    ) -> (r: Response)
        ensures
            exists|o: ResponseV|
                step_to(
                    #[trigger] step(
                        with_phase(old(self)@, (PhaseV::Data { domain: domain@, has_error })),
                        cmd@,
                        o,
                    ),
                    r@,
                    final(self)@,
                ),
            final(self).data_log == old(self).data_log,
            final(self).data_starts == old(self).data_starts,
            final(self).data_ends@ == old(self).data_ends@ + (
            if !has_error && cmd@ is DataEnd {
                1nat
            } else {
                0nat
            }),
    {
        let ghost pre = with_phase(self@, PhaseV::Data { domain: domain@, has_error });
        match cmd {
            Cmd::DataEnd => {
                if has_error {
                    self.phase = Phase::Hello { domain };
                    let r = empty_response();
                    proof {
                        assert(step(pre, cmd@, r@) == StepRes { resp: r@, next: self@ });
                    }
                    r
                } else {
                    let res = handler.data_end();
                    proof {
                        self.data_ends@ = self.data_ends@ + 1;
                    }
                    let ghost ov = res@;
                    if res.action == Action::Close {
                        self.phase = Phase::Invalid;
                    } else if res.is_error {
                        self.phase = Phase::Data { domain, has_error: true };
                    } else {
                        self.phase = Phase::Hello { domain };
                    }
                    proof {
                        assert(step(pre, cmd@, ov) == StepRes { resp: res@, next: self@ });
                    }
                    res
                }
            },
            _ => {
                self.phase = Phase::Data { domain, has_error };
                let r = bad_sequence();
                proof {
                    assert(step(pre, cmd@, r@) == StepRes { resp: r@, next: self@ });
                }
                r
            },
        }
    }

    /// Feeds one command to the automaton: the handler is consulted
    /// where the transition table says so, the phase moves as [`step`]
    /// says, and the response is returned. The ghost counters record
    /// exactly the `data_start` and `data_end` calls made.
    pub fn command<H: Handler>(&mut self, handler: &mut H, cmd: Cmd) -> (r: Response)
        ensures
            exists|o: ResponseV|
                step_to(#[trigger] step(old(self)@, cmd@, o), r@, final(self)@),
            final(self).data_starts@ == old(self).data_starts@ + (
            if fires_data_start(old(self)@, cmd@) {
                1nat
            } else {
                0nat
            }),
            final(self).data_ends@ == old(self).data_ends@ + (
            if fires_data_end(old(self)@, cmd@) {
                1nat
            } else {
                0nat
            }),
            final(self).data_log == old(self).data_log,
    {
        let ghost pre = self@;
        let mut ph = Phase::Invalid;
        core::mem::swap(&mut ph, &mut self.phase);
        match ph {
            Phase::Invalid => {
                self.phase = Phase::Invalid;
                let r = invalid_state();
                proof {
                    assert(step(pre, cmd@, r@) == StepRes { resp: r@, next: self@ });
                }
                r
            },
            Phase::Idle => self.cmd_idle(handler, cmd),
            Phase::Hello { domain } => self.cmd_hello(handler, domain, cmd),
            Phase::HelloAuth { domain } => self.cmd_hello_auth(handler, domain, cmd),
            Phase::Auth { domain, mechanism, username } => self.cmd_auth(
                handler,
                domain,
                mechanism,
                username,
                cmd,
            ),
            Phase::Mail { domain, reverse_path, is8bit } => self.cmd_mail(
                handler,
                domain,
                reverse_path,
                is8bit,
                cmd,
            ),
            Phase::Rcpt { domain, reverse_path, is8bit, forward_path } => self.cmd_rcpt(
                handler,
                domain,
                reverse_path,
                is8bit,
                forward_path,
                cmd,
            ),
            Phase::Data { domain, has_error } => self.cmd_data(handler, domain, has_error, cmd),
        }
    }

    /// Turns one raw line into what the driver must do with it. In most
    /// phases the line is parsed as an SMTP command; in the Auth phase it
    /// is one base64 SASL payload; in the Data phase it is payload, with
    /// the dot-unstuffing law: the terminator line ends the payload, and
    /// any other line reaches the handler with exactly one leading `.`
    /// removed.
    pub fn process_line<H: Handler>(&mut self, handler: &mut H, line: &[u8]) -> (r: LineOutcome)
        ensures
            final(self).data_starts == old(self).data_starts,
            final(self).data_ends == old(self).data_ends,
            match old(self)@.phase {
                PhaseV::Invalid => final(self)@ == old(self)@ && final(self).data_log == old(self).data_log && (r matches LineOutcome::Reply(e) && e@ == invalid_state_v()),
                PhaseV::Auth { domain, .. } => final(self).data_log == old(self).data_log && (
                match parser::auth_response_spec(line@) {
                    Ok(b) => final(self)@ == old(self)@ && (r matches LineOutcome::Command(c)
                        && c@ == (CmdV::AuthResponse { response: b })),
                    // a line that is not a SASL payload cancels the exchange
                    Err(e) => final(self)@ == with_phase(
                        old(self)@,
                        (PhaseV::HelloAuth { domain }),
                    ) && (r matches LineOutcome::Reply(rsp) && rsp@ == e),
                }),
                PhaseV::Data { domain, has_error } => if line@ == dot_line() {
                    final(self)@ == old(self)@ && final(self).data_log == old(self).data_log && (
                    r matches LineOutcome::Command(c) && c@ == CmdV::DataEnd)
                } else if has_error {
                    final(self)@ == old(self)@ && final(self).data_log == old(self).data_log && (
                    r matches LineOutcome::Reply(rsp) && rsp@ == empty_response_v())
                } else {
                    final(self).data_log@ == old(self).data_log@.push(unstuff(line@)) && (
                    r matches LineOutcome::Reply(rsp) && ((rsp@ == empty_response_v() && final(self)@ == old(self)@) || (rsp@ == transaction_failed_v() && final(self)@
                        == with_phase(old(self)@, (PhaseV::Data { domain, has_error: true })))))
                },
                _ => final(self)@ == old(self)@ && final(self).data_log == old(self).data_log && (
                match parser::parse_spec(line@) {
                    Ok(c) => r matches LineOutcome::Command(cc) && cc@ == c,
                    Err(e) => r matches LineOutcome::Reply(rsp) && rsp@ == e,
                }),
            },
    {
        let mut ph = Phase::Invalid;
        core::mem::swap(&mut ph, &mut self.phase);
        match ph {
            Phase::Invalid => {
                self.phase = Phase::Invalid;
                LineOutcome::Reply(invalid_state())
            },
            Phase::Auth { domain, mechanism, username } => {
                match parser::parse_auth_response(line) {
                    Ok(b) => {
                        self.phase = Phase::Auth { domain, mechanism, username };
                        LineOutcome::Command(Cmd::AuthResponse { response: b })
                    },
                    Err(e) => {
                        // the exchange is cancelled; authentication is owed again
                        self.phase = Phase::HelloAuth { domain };
                        LineOutcome::Reply(e)
                    },
                }
            },
            Phase::Data { domain, has_error } => {
                if is_dot_line(line) {
                    self.phase = Phase::Data { domain, has_error };
                    LineOutcome::Command(Cmd::DataEnd)
                } else if has_error {
                    self.phase = Phase::Data { domain, has_error };
                    LineOutcome::Reply(empty_response())
                } else {
                    let stripped = unstuff_x(line);
                    self.data_log = Ghost(self.data_log@.push(stripped@));
                    match handler.data(stripped.as_slice()) {
                        Ok(_) => {
                            self.phase = Phase::Data { domain, has_error: false };
                            LineOutcome::Reply(empty_response())
                        },
                        Err(_e) => {
                            // report the failure once; spare the handler the rest
                            self.phase = Phase::Data { domain, has_error: true };
                            LineOutcome::Reply(transaction_failed())
                        },
                    }
                }
            },
            other => {
                self.phase = other;
                match parser::parse(line) {
                    Ok(c) => LineOutcome::Command(c),
                    Err(e) => LineOutcome::Reply(e),
                }
            },
        }
    }
}

/// Whether the line is the DATA terminator.
fn is_dot_line(line: &[u8]) -> (r: bool)
    ensures
        r == (line@ == dot_line()),
{
    if line.len() == 3 && line[0] == 46 && line[1] == 13 && line[2] == 10 {
        proof {
            assert(line@ =~= dot_line());
        }
        true
    } else {
        proof {
            assert(line@ != dot_line());
        }
        false
    }
}

/// Removes exactly one leading `.`, copying the line.
fn unstuff_x(line: &[u8]) -> (r: Vec<u8>)
    ensures
        r@ == unstuff(line@),
{
    let from: usize = if line.len() > 0 && line[0] == 46 {
        1
    } else {
        0
    };
    let mut out: Vec<u8> = Vec::new();
    let mut i: usize = from;
    while i < line.len()
        invariant
            from <= i <= line@.len(),
            out@ =~= line@.subrange(from as int, i as int),
        decreases line.len() - i,
    {
        out.push(line[i]);
        i = i + 1;
    }
    proof {
        assert(out@ =~= unstuff(line@));
    }
    out
}


// --- laws of the transition table ---

/// Law: an error response that does not close the session leaves the
/// automaton in the node it stood in. The one exception is the SASL
/// exchange: a failed attempt falls back from Auth to HelloAuth, so the
/// Auth phase is left out here.
#[verifier::rlimit(100)]
pub proof fn lemma_error_keeps_phase(v: SsmView, c: CmdV, o: ResponseV)
    requires
        !(v.phase is Auth),
        step(v, c, o).resp.is_error,
        !(step(v, c, o).resp.action is Close),
    ensures
        phase_id(step(v, c, o).next.phase) == phase_id(v.phase),
{
}

/// Law: a closing response terminates the session, and a terminated
/// session accepts nothing more: every further command is answered with
/// the fatal 421 and the machine does not move.
pub proof fn lemma_close_terminates(v: SsmView, c: CmdV, o: ResponseV)
    ensures
        step(v, c, o).resp.action is Close ==> step(v, c, o).next.phase is Invalid,
        v.phase is Invalid ==> step(v, c, o).resp == invalid_state_v() && step(v, c, o).next == v,
{
}

/// Law: a completed TLS handshake leaves the machine at Idle with TLS
/// active, no envelope, and the authentication state cleared back to
/// RequiresAuth wherever authentication is configured.
pub proof fn lemma_tls_handshake_resets(v: SsmView, o: ResponseV)
    requires
        v.phase is Idle,
    ensures
        step(v, CmdV::StartedTls, o).next.phase is Idle,
        step(v, CmdV::StartedTls, o).next.tls is Active,
        !(v.auth_state is Unavailable) ==> step(v, CmdV::StartedTls, o).next.auth_state
            is RequiresAuth,
        step(v, CmdV::StartedTls, o).resp == empty_response_v(),
{
}

/// Law: while authentication is owed, MAIL is refused with 530 and the
/// machine does not move.
pub proof fn lemma_auth_gate(v: SsmView, c: CmdV, o: ResponseV)
    requires
        v.auth_state is RequiresAuth,
        c is Mail,
        v.phase is Hello || v.phase is HelloAuth,
    ensures
        step(v, c, o).resp == auth_required_v(),
        step(v, c, o).next == v,
{
}

/// Law: authentication commands are accepted only over TLS, unless the
/// embedder explicitly allowed plaintext authentication; anywhere else
/// they are answered as out of sequence, and the machine does not move.
pub proof fn lemma_plaintext_auth_gate(v: SsmView, c: CmdV, o: ResponseV)
    requires
        !allow_auth(v),
        c is AuthPlain || c is AuthPlainEmpty || c is AuthLogin || c is AuthLoginEmpty,
        !(v.phase is Invalid),
    ensures
        step(v, c, o).resp == bad_sequence_v(),
        step(v, c, o).next == v,
{
}

/// Whether the machine stands in an open DATA phase, one that still owes
/// the handler a `data_end` call.
pub open spec fn can_end_data(v: SsmView) -> bool {
    match v.phase {
        PhaseV::Data { has_error, .. } => !has_error,
        _ => false,
    }
}

/// A `data_end` call happens only in an open DATA phase, and closes it.
pub proof fn lemma_data_end_closes(v: SsmView, c: CmdV, o: ResponseV)
    ensures
        fires_data_end(v, c) ==> can_end_data(v),
        fires_data_end(v, c) ==> !can_end_data(step(v, c, o).next),
{
}

/// An open DATA phase arises only through a `data_start` call.
pub proof fn lemma_data_start_opens(v: SsmView, c: CmdV, o: ResponseV)
    ensures
        !can_end_data(v) && can_end_data(step(v, c, o).next) ==> fires_data_start(v, c),
{
}

/// A whole session: the machine after feeding a trace of commands, each
/// paired with the response its handler consultation returned.
pub open spec fn run(v: SsmView, tr: Seq<(CmdV, ResponseV)>) -> SsmView
    decreases tr.len(),
{
    if tr.len() == 0 {
        v
    } else {
        run(step(v, tr[0].0, tr[0].1).next, tr.skip(1))
    }
}

/// The machine right before step `i` of a trace.
pub open spec fn state_at(v: SsmView, tr: Seq<(CmdV, ResponseV)>, i: int) -> SsmView {
    run(v, tr.take(i))
}

proof fn lemma_run_snoc(v: SsmView, tr: Seq<(CmdV, ResponseV)>, p: (CmdV, ResponseV))
    ensures
        run(v, tr.push(p)) == step(run(v, tr), p.0, p.1).next,
    decreases tr.len(),
{
    if tr.len() == 0 {
        assert(tr.push(p)[0] == p);
        assert(tr.push(p).skip(1) =~= Seq::<(CmdV, ResponseV)>::empty());
        assert(run(v, tr.push(p)) == run(step(v, p.0, p.1).next, tr.push(p).skip(1)));
        assert(run(step(v, p.0, p.1).next, tr.push(p).skip(1)) == step(v, p.0, p.1).next);
        assert(run(v, tr) == v);
    } else {
        assert(tr.push(p)[0] == tr[0]);
        assert(tr.push(p).skip(1) =~= tr.skip(1).push(p));
        assert(run(v, tr.push(p)) == run(step(v, tr[0].0, tr[0].1).next, tr.push(p).skip(1)));
        assert(run(v, tr) == run(step(v, tr[0].0, tr[0].1).next, tr.skip(1)));
        lemma_run_snoc(step(v, tr[0].0, tr[0].1).next, tr.skip(1), p);
    }
}

proof fn lemma_state_at_step(v: SsmView, tr: Seq<(CmdV, ResponseV)>, i: int)
    requires
        0 <= i < tr.len(),
    ensures
        state_at(v, tr, i + 1) == step(state_at(v, tr, i), tr[i].0, tr[i].1).next,
{
    assert(tr.take(i + 1) =~= tr.take(i).push(tr[i]));
    lemma_run_snoc(v, tr.take(i), tr[i]);
}

proof fn lemma_no_start_no_end(v: SsmView, tr: Seq<(CmdV, ResponseV)>, i: int, j: int)
    requires
        0 <= i <= j <= tr.len(),
        !can_end_data(state_at(v, tr, i)),
        forall|k: int| i <= k < j ==> !fires_data_start(state_at(v, tr, k), #[trigger] tr[k].0),
    ensures
        !can_end_data(state_at(v, tr, j)),
    decreases j - i,
{
    if i < j {
        lemma_state_at_step(v, tr, i);
        lemma_data_start_opens(state_at(v, tr, i), tr[i].0, tr[i].1);
        lemma_no_start_no_end(v, tr, i + 1, j);
    }
}

/// Law: `data_end` is called at most once per `data_start`. In any
/// session trace, between two commands that make the machine call
/// `data_end` there stands one that makes it call `data_start`.
pub proof fn lemma_data_end_at_most_once(v: SsmView, tr: Seq<(CmdV, ResponseV)>, i: int, j: int)
    requires
        0 <= i < j < tr.len(),
        fires_data_end(state_at(v, tr, i), tr[i].0),
        fires_data_end(state_at(v, tr, j), tr[j].0),
    ensures
        exists|k: int|
            i < k <= j && #[trigger] fires_data_start(state_at(v, tr, k), tr[k].0),
{
    if forall|k: int| i < k <= j ==> !(#[trigger] fires_data_start(state_at(v, tr, k), tr[k].0)) {
        lemma_state_at_step(v, tr, i);
        lemma_data_end_closes(state_at(v, tr, i), tr[i].0, tr[i].1);
        assert forall|k: int| i + 1 <= k < j implies !fires_data_start(
            state_at(v, tr, k),
            #[trigger] tr[k].0,
        ) by {
            assert(i < k <= j);
        }
        lemma_no_start_no_end(v, tr, i + 1, j);
        lemma_data_end_closes(state_at(v, tr, j), tr[j].0, tr[j].1);
        assert(false);
    }
}


} // verus!
