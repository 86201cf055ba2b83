use mailin::parser::{format_cmd, parse, parse_auth_response};
use mailin::smtp::Cmd;

fn cmd(line: &[u8]) -> Cmd {
    parse(line).expect("line should parse")
}

fn err_code(line: &[u8]) -> u16 {
    parse(line).err().expect("line should be refused").code
}

#[test]
fn parses_helo_and_ehlo() {
    match cmd(b"HELO client.example\r\n") {
        Cmd::Helo { domain } => assert_eq!(domain, b"client.example".to_vec()),
        other => panic!("wrong command: {:?}", parse_kind(&other)),
    }
    match cmd(b"EHLO client.example\r\n") {
        Cmd::Ehlo { domain } => assert_eq!(domain, b"client.example".to_vec()),
        _ => panic!("wrong command"),
    }
}

fn parse_kind(c: &Cmd) -> &'static str {
    match c {
        Cmd::Helo { .. } => "helo",
        Cmd::Ehlo { .. } => "ehlo",
        Cmd::Mail { .. } => "mail",
        Cmd::Rcpt { .. } => "rcpt",
        Cmd::Data => "data",
        Cmd::DataEnd => "dataend",
        Cmd::Rset => "rset",
        Cmd::Quit => "quit",
        Cmd::Noop => "noop",
        Cmd::Vrfy => "vrfy",
        Cmd::StartTls => "starttls",
        Cmd::StartedTls => "startedtls",
        Cmd::AuthPlain { .. } => "authplain",
        Cmd::AuthPlainEmpty => "authplainempty",
        Cmd::AuthLogin { .. } => "authlogin",
        Cmd::AuthLoginEmpty => "authloginempty",
        Cmd::AuthResponse { .. } => "authresponse",
    }
}

#[test]
fn verbs_are_case_insensitive() {
    assert!(matches!(cmd(b"helo a\r\n"), Cmd::Helo { .. }));
    assert!(matches!(cmd(b"MaIl FrOm:<a@ex>\r\n"), Cmd::Mail { .. }));
    assert!(matches!(cmd(b"quit\r\n"), Cmd::Quit));
    assert!(matches!(cmd(b"sTaRtTlS\r\n"), Cmd::StartTls));
}

#[test]
fn parses_mail_forms() {
    match cmd(b"MAIL FROM:<a@ex>\r\n") {
        Cmd::Mail { reverse_path, is8bit } => {
            assert_eq!(reverse_path, b"a@ex".to_vec());
            assert!(!is8bit);
        },
        _ => panic!("wrong command"),
    }
    match cmd(b"MAIL FROM:<a@ex> BODY=8BITMIME\r\n") {
        Cmd::Mail { reverse_path, is8bit } => {
            assert_eq!(reverse_path, b"a@ex".to_vec());
            assert!(is8bit);
        },
        _ => panic!("wrong command"),
    }
    // the null sender
    match cmd(b"MAIL FROM:<>\r\n") {
        Cmd::Mail { reverse_path, is8bit } => {
            assert_eq!(reverse_path, b"".to_vec());
            assert!(!is8bit);
        },
        _ => panic!("wrong command"),
    }
}

#[test]
fn parses_rcpt_and_simple_verbs() {
    match cmd(b"RCPT TO:<b@ex>\r\n") {
        Cmd::Rcpt { forward_path } => assert_eq!(forward_path, b"b@ex".to_vec()),
        _ => panic!("wrong command"),
    }
    assert!(matches!(cmd(b"DATA\r\n"), Cmd::Data));
    assert!(matches!(cmd(b"RSET\r\n"), Cmd::Rset));
    assert!(matches!(cmd(b"NOOP\r\n"), Cmd::Noop));
    assert!(matches!(cmd(b"VRFY somebody\r\n"), Cmd::Vrfy));
    assert!(matches!(cmd(b"STARTTLS\r\n"), Cmd::StartTls));
}

#[test]
fn parses_auth_forms() {
    assert!(matches!(cmd(b"AUTH PLAIN\r\n"), Cmd::AuthPlainEmpty));
    assert!(matches!(cmd(b"AUTH LOGIN\r\n"), Cmd::AuthLoginEmpty));
    match cmd(b"AUTH PLAIN AGFsaWNlAHNlY3JldA==\r\n") {
        Cmd::AuthPlain { authorization_id, authentication_id, password } => {
            assert_eq!(authorization_id, b"".to_vec());
            assert_eq!(authentication_id, b"alice".to_vec());
            assert_eq!(password, b"secret".to_vec());
        },
        _ => panic!("wrong command"),
    }
    match cmd(b"AUTH LOGIN YWxpY2U=\r\n") {
        Cmd::AuthLogin { username } => assert_eq!(username, b"alice".to_vec()),
        _ => panic!("wrong command"),
    }
}

#[test]
fn unknown_verb_gets_500() {
    assert_eq!(err_code(b"FROBNICATE\r\n"), 500);
    assert_eq!(err_code(b"\r\n"), 500);
    // a line without the CRLF terminator is not a command
    assert_eq!(err_code(b"QUIT"), 500);
}

#[test]
fn bad_arguments_get_501() {
    assert_eq!(err_code(b"HELO\r\n"), 501);
    assert_eq!(err_code(b"MAIL FROM:a@ex\r\n"), 501);
    assert_eq!(err_code(b"MAIL FROM:<a@ex> X=1\r\n"), 501);
    assert_eq!(err_code(b"RCPT TO:b@ex\r\n"), 501);
    assert_eq!(err_code(b"DATA now\r\n"), 501);
    assert_eq!(err_code(b"AUTH PLAIN !!!!\r\n"), 501);
    assert_eq!(err_code(b"AUTH CRAM-MD5\r\n"), 501);
}

#[test]
fn auth_response_line_is_base64() {
    assert_eq!(parse_auth_response(b"YWxpY2U=\r\n").unwrap(), b"alice".to_vec());
    assert_eq!(parse_auth_response(b"not base64!\r\n").err().unwrap().code, 501);
}

#[test]
fn format_then_parse_round_trips() {
    let cases: Vec<Cmd> = vec![
        Cmd::Helo { domain: b"client.example".to_vec() },
        Cmd::Ehlo { domain: b"client.example".to_vec() },
        Cmd::Mail { reverse_path: b"a@ex".to_vec(), is8bit: false },
        Cmd::Mail { reverse_path: b"a@ex".to_vec(), is8bit: true },
        Cmd::Mail { reverse_path: b"".to_vec(), is8bit: false },
        Cmd::Rcpt { forward_path: b"b@ex".to_vec() },
        Cmd::Rset,
        Cmd::Quit,
        Cmd::Noop,
    ];
    for c in cases {
        let wire = format_cmd(&c).expect("form should have a wire image");
        let back = parse(&wire).expect("wire image should parse");
        assert_eq!(parse_kind(&back), parse_kind(&c));
        match (&c, &back) {
            (Cmd::Helo { domain: a }, Cmd::Helo { domain: b }) => assert_eq!(a, b),
            (Cmd::Ehlo { domain: a }, Cmd::Ehlo { domain: b }) => assert_eq!(a, b),
            (
                Cmd::Mail { reverse_path: a, is8bit: x },
                Cmd::Mail { reverse_path: b, is8bit: y },
            ) => {
                assert_eq!(a, b);
                assert_eq!(x, y);
            },
            (Cmd::Rcpt { forward_path: a }, Cmd::Rcpt { forward_path: b }) => assert_eq!(a, b),
            _ => {},
        }
    }
}

#[test]
fn format_writes_canonical_lines() {
    assert_eq!(
        format_cmd(&Cmd::Mail { reverse_path: b"a@ex".to_vec(), is8bit: true }).unwrap(),
        b"MAIL FROM:<a@ex> BODY=8BITMIME\r\n".to_vec()
    );
    assert_eq!(format_cmd(&Cmd::Quit).unwrap(), b"QUIT\r\n".to_vec());
    assert_eq!(format_cmd(&Cmd::Data), None);
    assert_eq!(format_cmd(&Cmd::StartedTls), None);
}
