use mailin::fsm::{AuthState, Handler, LineOutcome, SmtpState, StateMachine, TlsState};
use mailin::smtp::AuthMechanism;
use mailin::response::{auth_ok, invalid_credentials, ok, Action, Response};

struct TestHandler {
    data_lines: Vec<Vec<u8>>,
    data_starts: usize,
    data_ends: usize,
    rcpt_fails: bool,
}

impl TestHandler {
    fn new() -> TestHandler {
        TestHandler { data_lines: Vec::new(), data_starts: 0, data_ends: 0, rcpt_fails: false }
    }
}

impl Handler for TestHandler {
    fn helo(&mut self, _ip: &[u8], _domain: &[u8]) -> Response {
        ok()
    }

    fn mail(&mut self, _ip: &[u8], _domain: &[u8], _reverse_path: &[u8]) -> Response {
        ok()
    }

    fn rcpt(&mut self, _forward_path: &[u8]) -> Response {
        if self.rcpt_fails {
            Response::custom(550, "no such user".to_string())
        } else {
            ok()
        }
    }

    fn auth_plain(&mut self, _z: &[u8], authentication_id: &[u8], password: &[u8]) -> Response {
        if authentication_id == b"alice" && password == b"secret" {
            auth_ok()
        } else {
            invalid_credentials()
        }
    }

    fn auth_login(&mut self, username: &[u8], password: &[u8]) -> Response {
        if username == b"alice" && password == b"secret" {
            auth_ok()
        } else {
            invalid_credentials()
        }
    }

    fn data_start(
        &mut self,
        _domain: &[u8],
        _reverse_path: &[u8],
        _is8bit: bool,
        _forward_path: &Vec<Vec<u8>>,
    ) -> Response {
        self.data_starts += 1;
        ok()
    }

    fn data(&mut self, buf: &[u8]) -> Result<(), Response> {
        self.data_lines.push(buf.to_vec());
        Ok(())
    }

    fn data_end(&mut self) -> Response {
        self.data_ends += 1;
        ok()
    }
}

fn feed(m: &mut StateMachine, h: &mut TestHandler, line: &[u8]) -> Response {
    match m.process_line(h, line) {
        LineOutcome::Command(c) => m.command(h, c),
        LineOutcome::Reply(r) => r,
    }
}

fn plain_machine() -> StateMachine {
    StateMachine::new(b"127.0.0.1".to_vec(), Vec::new(), true, false)
}

#[test]
fn minimal_delivery_session() {
    let mut h = TestHandler::new();
    let mut m = plain_machine();
    let r = feed(&mut m, &mut h, b"EHLO client.example\r\n");
    assert_eq!(r.code, 250);
    assert_eq!(
        r.lines,
        vec![
            "server offers extensions:".to_string(),
            "8BITMIME".to_string(),
            "STARTTLS".to_string()
        ]
    );
    assert_eq!(feed(&mut m, &mut h, b"MAIL FROM:<a@ex>\r\n").code, 250);
    assert_eq!(feed(&mut m, &mut h, b"RCPT TO:<b@ex>\r\n").code, 250);
    assert_eq!(feed(&mut m, &mut h, b"DATA\r\n").code, 354);
    assert_eq!(m.current_state(), SmtpState::Data);
    assert_eq!(feed(&mut m, &mut h, b"Subject: Hi\r\n").action, Action::NoReply);
    assert_eq!(feed(&mut m, &mut h, b"\r\n").action, Action::NoReply);
    assert_eq!(feed(&mut m, &mut h, b"Hello\r\n").action, Action::NoReply);
    let end = feed(&mut m, &mut h, b".\r\n");
    assert_eq!(end.code, 250);
    assert_eq!(m.current_state(), SmtpState::Hello);
    let bye = feed(&mut m, &mut h, b"QUIT\r\n");
    assert_eq!(bye.code, 221);
    assert_eq!(bye.action, Action::Close);
    assert_eq!(m.current_state(), SmtpState::Invalid);
    assert_eq!(
        h.data_lines,
        vec![b"Subject: Hi\r\n".to_vec(), b"\r\n".to_vec(), b"Hello\r\n".to_vec()]
    );
    assert_eq!(h.data_starts, 1);
    assert_eq!(h.data_ends, 1);
}

#[test]
fn starttls_resets_the_session() {
    let mut h = TestHandler::new();
    let mut m = plain_machine();
    assert_eq!(feed(&mut m, &mut h, b"EHLO foo\r\n").code, 250);
    let r = feed(&mut m, &mut h, b"STARTTLS\r\n");
    assert_eq!(r.code, 220);
    assert_eq!(r.action, Action::UpgradeTls);
    assert_eq!(m.current_state(), SmtpState::Idle);
    // the driver reports the completed handshake
    assert_eq!(m.command(&mut h, mailin::smtp::Cmd::StartedTls).action, Action::NoReply);
    assert_eq!(m.tls, TlsState::Active);
    assert_eq!(m.current_state(), SmtpState::Idle);
    // the client must greet again before MAIL
    assert_eq!(feed(&mut m, &mut h, b"MAIL FROM:<a@ex>\r\n").code, 503);
    assert_eq!(m.current_state(), SmtpState::Idle);
}

fn auth_machine(mechanisms: Vec<AuthMechanism>) -> (StateMachine, TestHandler) {
    let mut h = TestHandler::new();
    let mut m = StateMachine::new(b"127.0.0.1".to_vec(), mechanisms, true, false);
    // bring TLS up so that authentication is allowed
    assert_eq!(feed(&mut m, &mut h, b"EHLO foo\r\n").code, 250);
    assert_eq!(feed(&mut m, &mut h, b"STARTTLS\r\n").action, Action::UpgradeTls);
    m.command(&mut h, mailin::smtp::Cmd::StartedTls);
    assert_eq!(feed(&mut m, &mut h, b"EHLO foo\r\n").code, 250);
    assert_eq!(m.current_state(), SmtpState::HelloAuth);
    (m, h)
}

#[test]
fn auth_plain_one_shot() {
    let (mut m, mut h) = auth_machine(vec![AuthMechanism::Plain]);
    // a failed attempt stays in the greeted-unauthenticated phase
    let bad = feed(&mut m, &mut h, b"AUTH PLAIN AGFsaWNlAHdyb25n\r\n");
    assert_eq!(bad.code, 535);
    assert_eq!(m.current_state(), SmtpState::HelloAuth);
    // the right credentials authenticate and move to Hello
    let good = feed(&mut m, &mut h, b"AUTH PLAIN AGFsaWNlAHNlY3JldA==\r\n");
    assert_eq!(good.code, 235);
    assert_eq!(m.current_state(), SmtpState::Hello);
    assert_eq!(m.auth_state, AuthState::Authenticated);
    assert_eq!(feed(&mut m, &mut h, b"MAIL FROM:<a@ex>\r\n").code, 250);
}

#[test]
fn auth_login_two_step() {
    let (mut m, mut h) = auth_machine(vec![AuthMechanism::Login]);
    let challenge = feed(&mut m, &mut h, b"AUTH LOGIN\r\n");
    assert_eq!(challenge.code, 334);
    assert_eq!(challenge.lines, vec!["VXNlcm5hbWU6".to_string()]);
    assert_eq!(m.current_state(), SmtpState::Auth);
    let challenge2 = feed(&mut m, &mut h, b"YWxpY2U=\r\n");
    assert_eq!(challenge2.code, 334);
    assert_eq!(challenge2.lines, vec!["UGFzc3dvcmQ6".to_string()]);
    let done = feed(&mut m, &mut h, b"c2VjcmV0\r\n");
    assert_eq!(done.code, 235);
    assert_eq!(m.current_state(), SmtpState::Hello);
}

#[test]
fn ehlo_advertises_auth_mechanisms() {
    let (mut m, mut h) = auth_machine(vec![AuthMechanism::Plain, AuthMechanism::Login]);
    let r = feed(&mut m, &mut h, b"RSET\r\n");
    assert_eq!(r.code, 250);
    let caps = feed(&mut m, &mut h, b"EHLO foo\r\n");
    assert_eq!(
        caps.lines,
        vec![
            "server offers extensions:".to_string(),
            "8BITMIME".to_string(),
            "AUTH PLAIN LOGIN".to_string()
        ]
    );
}

#[test]
fn mail_requires_authentication() {
    let (mut m, mut h) = auth_machine(vec![AuthMechanism::Plain]);
    let r = feed(&mut m, &mut h, b"MAIL FROM:<a@ex>\r\n");
    assert_eq!(r.code, 530);
    assert_eq!(r.enhanced, Some((5, 7, 0)));
    assert_eq!(m.current_state(), SmtpState::HelloAuth);
}

#[test]
fn plaintext_auth_refused_without_tls() {
    let mut h = TestHandler::new();
    let mut m = StateMachine::new(b"127.0.0.1".to_vec(), vec![AuthMechanism::Plain], true, false);
    assert_eq!(feed(&mut m, &mut h, b"EHLO foo\r\n").code, 250);
    assert_eq!(m.current_state(), SmtpState::HelloAuth);
    // without TLS (and without the insecure override) AUTH is out of sequence
    assert_eq!(feed(&mut m, &mut h, b"AUTH PLAIN AGFsaWNlAHNlY3JldA==\r\n").code, 503);
    assert_eq!(m.current_state(), SmtpState::HelloAuth);
}

#[test]
fn dot_stuffing_is_undone() {
    let mut h = TestHandler::new();
    let mut m = plain_machine();
    feed(&mut m, &mut h, b"EHLO foo\r\n");
    feed(&mut m, &mut h, b"MAIL FROM:<a@ex>\r\n");
    feed(&mut m, &mut h, b"RCPT TO:<b@ex>\r\n");
    feed(&mut m, &mut h, b"DATA\r\n");
    feed(&mut m, &mut h, b"..leading-dot\r\n");
    feed(&mut m, &mut h, b"ordinary\r\n");
    let end = feed(&mut m, &mut h, b".\r\n");
    assert_eq!(end.code, 250);
    // exactly one leading dot was removed; the terminator was not delivered
    assert_eq!(h.data_lines, vec![b".leading-dot\r\n".to_vec(), b"ordinary\r\n".to_vec()]);
}

#[test]
fn error_response_keeps_the_phase() {
    let mut h = TestHandler::new();
    let mut m = plain_machine();
    feed(&mut m, &mut h, b"EHLO foo\r\n");
    feed(&mut m, &mut h, b"MAIL FROM:<a@ex>\r\n");
    assert_eq!(m.current_state(), SmtpState::Mail);
    // the handler refuses the recipient: the envelope stays where it was
    h.rcpt_fails = true;
    assert_eq!(feed(&mut m, &mut h, b"RCPT TO:<b@ex>\r\n").code, 550);
    assert_eq!(m.current_state(), SmtpState::Mail);
    // a command out of sequence also keeps the phase
    assert_eq!(feed(&mut m, &mut h, b"DATA\r\n").code, 503);
    assert_eq!(m.current_state(), SmtpState::Mail);
    h.rcpt_fails = false;
    assert_eq!(feed(&mut m, &mut h, b"RCPT TO:<b@ex>\r\n").code, 250);
    assert_eq!(m.current_state(), SmtpState::Rcpt);
}

#[test]
fn closed_session_accepts_nothing() {
    let mut h = TestHandler::new();
    let mut m = plain_machine();
    feed(&mut m, &mut h, b"QUIT\r\n");
    assert_eq!(m.current_state(), SmtpState::Invalid);
    let r = feed(&mut m, &mut h, b"EHLO foo\r\n");
    assert_eq!(r.code, 421);
    assert_eq!(r.action, Action::Close);
    assert_eq!(m.current_state(), SmtpState::Invalid);
}

#[test]
fn rset_collapses_to_the_greeted_phase() {
    let mut h = TestHandler::new();
    let mut m = plain_machine();
    feed(&mut m, &mut h, b"EHLO foo\r\n");
    feed(&mut m, &mut h, b"MAIL FROM:<a@ex>\r\n");
    feed(&mut m, &mut h, b"RCPT TO:<b@ex>\r\n");
    assert_eq!(feed(&mut m, &mut h, b"RSET\r\n").code, 250);
    assert_eq!(m.current_state(), SmtpState::Hello);
    // the HELO domain survives the reset
    assert_eq!(feed(&mut m, &mut h, b"MAIL FROM:<c@ex>\r\n").code, 250);
}

#[test]
fn vrfy_is_answered_without_verification() {
    let mut h = TestHandler::new();
    let mut m = plain_machine();
    feed(&mut m, &mut h, b"EHLO foo\r\n");
    assert_eq!(feed(&mut m, &mut h, b"VRFY somebody\r\n").code, 252);
    assert_eq!(m.current_state(), SmtpState::Hello);
}

#[test]
fn multiple_recipients_accumulate() {
    let mut h = TestHandler::new();
    let mut m = plain_machine();
    feed(&mut m, &mut h, b"EHLO foo\r\n");
    feed(&mut m, &mut h, b"MAIL FROM:<a@ex>\r\n");
    feed(&mut m, &mut h, b"RCPT TO:<b@ex>\r\n");
    feed(&mut m, &mut h, b"RCPT TO:<c@ex>\r\n");
    assert_eq!(m.current_state(), SmtpState::Rcpt);
    match &m.phase {
        mailin::fsm::Phase::Rcpt { forward_path, .. } => {
            assert_eq!(forward_path, &vec![b"b@ex".to_vec(), b"c@ex".to_vec()]);
        },
        _ => panic!("wrong phase"),
    }
}

#[test]
fn data_write_error_poisons_the_payload() {
    struct FailingHandler {
        lines_taken: usize,
    }
    impl Handler for FailingHandler {
        fn helo(&mut self, _ip: &[u8], _d: &[u8]) -> Response {
            ok()
        }
        fn mail(&mut self, _ip: &[u8], _d: &[u8], _rp: &[u8]) -> Response {
            ok()
        }
        fn rcpt(&mut self, _fp: &[u8]) -> Response {
            ok()
        }
        fn auth_plain(&mut self, _z: &[u8], _n: &[u8], _p: &[u8]) -> Response {
            invalid_credentials()
        }
        fn auth_login(&mut self, _u: &[u8], _p: &[u8]) -> Response {
            invalid_credentials()
        }
        fn data_start(
            &mut self,
            _d: &[u8],
            _rp: &[u8],
            _e: bool,
            _fp: &Vec<Vec<u8>>,
        ) -> Response {
            ok()
        }
        fn data(&mut self, _buf: &[u8]) -> Result<(), Response> {
            self.lines_taken += 1;
            Err(Response::custom(452, "disk full".to_string()))
        }
        fn data_end(&mut self) -> Response {
            panic!("data_end must not run after a poisoned payload");
        }
    }
    let mut h = FailingHandler { lines_taken: 0 };
    let mut m = plain_machine();
    match m.process_line(&mut h, b"EHLO foo\r\n") {
        LineOutcome::Command(c) => {
            m.command(&mut h, c);
        },
        _ => panic!("should parse"),
    }
    for line in [
        b"MAIL FROM:<a@ex>\r\n".as_slice(),
        b"RCPT TO:<b@ex>\r\n".as_slice(),
        b"DATA\r\n".as_slice(),
    ] {
        match m.process_line(&mut h, line) {
            LineOutcome::Command(c) => {
                m.command(&mut h, c);
            },
            _ => panic!("should parse"),
        }
    }
    // the first failing line earns 554; later lines are not delivered
    match m.process_line(&mut h, b"one\r\n") {
        LineOutcome::Reply(r) => assert_eq!(r.code, 554),
        _ => panic!("should reply"),
    }
    match m.process_line(&mut h, b"two\r\n") {
        LineOutcome::Reply(r) => assert_eq!(r.action, Action::NoReply),
        _ => panic!("should reply"),
    }
    assert_eq!(h.lines_taken, 1);
    // the terminator ends the payload silently: the error was reported once
    match m.process_line(&mut h, b".\r\n") {
        LineOutcome::Command(c) => {
            let r = m.command(&mut h, c);
            assert_eq!(r.action, Action::NoReply);
        },
        _ => panic!("should be the end of data"),
    }
    assert_eq!(m.current_state(), SmtpState::Hello);
}

#[test]
fn helo_refused_when_authentication_is_configured() {
    let mut h = TestHandler::new();
    let mut m = StateMachine::new(b"127.0.0.1".to_vec(), vec![AuthMechanism::Plain], true, false);
    // with authentication configured the client must use EHLO
    assert_eq!(feed(&mut m, &mut h, b"HELO foo\r\n").code, 505);
    assert_eq!(m.current_state(), SmtpState::Idle);
}

#[test]
fn rejected_data_start_keeps_the_envelope() {
    struct RefusingHandler;
    impl Handler for RefusingHandler {
        fn data_start(
            &mut self,
            _d: &[u8],
            _rp: &[u8],
            _e: bool,
            _fp: &Vec<Vec<u8>>,
        ) -> Response {
            Response::custom(452, "insufficient storage".to_string())
        }
    }
    let mut h = RefusingHandler;
    let mut m = plain_machine();
    for line in [
        b"EHLO foo\r\n".as_slice(),
        b"MAIL FROM:<a@ex>\r\n".as_slice(),
        b"RCPT TO:<b@ex>\r\n".as_slice(),
    ] {
        match m.process_line(&mut h, line) {
            LineOutcome::Command(c) => {
                m.command(&mut h, c);
            },
            _ => panic!("should parse"),
        }
    }
    assert_eq!(m.current_state(), SmtpState::Rcpt);
    match m.process_line(&mut h, b"DATA\r\n") {
        LineOutcome::Command(c) => {
            let r = m.command(&mut h, c);
            assert_eq!(r.code, 452);
        },
        _ => panic!("should parse"),
    }
    // the handler refused the payload: the envelope is kept for a retry
    assert_eq!(m.current_state(), SmtpState::Rcpt);
}

#[test]
fn malformed_sasl_line_cancels_the_exchange() {
    let (mut m, mut h) = auth_machine(vec![AuthMechanism::Login]);
    assert_eq!(feed(&mut m, &mut h, b"AUTH LOGIN\r\n").code, 334);
    assert_eq!(m.current_state(), SmtpState::Auth);
    let r = feed(&mut m, &mut h, b"not base64!\r\n");
    assert_eq!(r.code, 501);
    assert_eq!(m.current_state(), SmtpState::HelloAuth);
}
