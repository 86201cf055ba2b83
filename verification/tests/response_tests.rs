use mailin::response::{banner, empty_response, ok, Action, Response};

#[test]
fn one_line_wire_form() {
    assert_eq!(ok().to_wire(), b"250 OK\r\n".to_vec());
}

#[test]
fn multi_line_wire_form() {
    let r = Response::dynamic(
        250,
        "server offers extensions:".to_string(),
        vec!["8BITMIME".to_string(), "STARTTLS".to_string()],
    );
    assert_eq!(
        r.to_wire(),
        b"250-server offers extensions:\r\n250-8BITMIME\r\n250 STARTTLS\r\n".to_vec()
    );
}

#[test]
fn no_reply_writes_nothing() {
    assert_eq!(empty_response().to_wire(), Vec::<u8>::new());
    assert_eq!(empty_response().action, Action::NoReply);
}

#[test]
fn banner_advertises_the_server_name() {
    let r = banner("localhost");
    assert_eq!(r.code, 220);
    assert_eq!(r.to_wire(), b"220 localhost ESMTP\r\n".to_vec());
}

#[test]
fn custom_responses_follow_the_code() {
    let bad = Response::custom(550, "no such user".to_string());
    assert!(bad.is_error);
    assert_eq!(bad.code, 550);
    let fine = Response::custom(250, "accepted".to_string());
    assert!(!fine.is_error);
}
