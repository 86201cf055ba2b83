use mailin::message::{Message, MessageParser};
use mailin::mime::{Event, Header, Multipart};

fn parse_lines(lines: &[&[u8]]) -> Message {
    let mut mp = MessageParser;
    let empty: Vec<Vec<u8>> = Vec::new();
    let mut st = mp.data_start(b"d", b"a@ex", false, &empty).unwrap();
    for line in lines {
        mp.data(&mut st, line).unwrap();
    }
    mp.data_end(st).unwrap()
}

#[test]
fn stream_begins_with_start_and_ends_with_end() {
    let msg = parse_lines(&[b"Subject: Hi\r\n", b"\r\n", b"Hello\r\n"]);
    assert_eq!(msg.events.first(), Some(&Event::Start));
    assert_eq!(msg.events.last(), Some(&Event::End));
}

#[test]
fn simple_message_events() {
    let msg = parse_lines(&[b"Subject: Hi\r\n", b"\r\n", b"Hello\r\n"]);
    assert_eq!(
        msg.events,
        vec![
            Event::Start,
            Event::Header(Header::Subject(b"Hi".to_vec())),
            Event::BodyStart { offset: 15 },
            Event::Body(b"Hello\r\n".to_vec()),
            Event::End,
        ]
    );
}

#[test]
fn typed_headers_are_recognized() {
    let msg = parse_lines(&[
        b"From: a@ex\r\n",
        b"To: b@ex\r\n",
        b"Date: today\r\n",
        b"Message-ID: <1@ex>\r\n",
        b"X-Custom: something\r\n",
        b"\r\n",
    ]);
    assert!(msg.events.contains(&Event::Header(Header::Sender(b"a@ex".to_vec()))));
    assert!(msg.events.contains(&Event::Header(Header::Recipient(b"b@ex".to_vec()))));
    assert!(msg.events.contains(&Event::Header(Header::Date(b"today".to_vec()))));
    assert!(msg.events.contains(&Event::Header(Header::MessageId(b"<1@ex>".to_vec()))));
    assert!(msg.events.contains(&Event::Header(Header::Unknown {
        name: b"X-Custom".to_vec(),
        value: b"something".to_vec(),
    })));
}

#[test]
fn continuation_lines_are_joined() {
    let msg = parse_lines(&[b"Subject: one\r\n", b" two\r\n", b"\r\n"]);
    assert!(msg.events.contains(&Event::Header(Header::Subject(b"one two".to_vec()))));
}

#[test]
fn multipart_mixed_event_sequence() {
    let msg = parse_lines(&[
        b"Content-Type: multipart/mixed; boundary=X\r\n",
        b"\r\n",
        b"--X\r\n",
        b"Content-Type: text/plain\r\n",
        b"\r\n",
        b"hello\r\n",
        b"--X\r\n",
        b"Content-Type: text/html\r\n",
        b"\r\n",
        b"<p>hi</p>\r\n",
        b"--X--\r\n",
    ]);
    let shapes: Vec<String> = msg.events.iter().map(|e| shape(e)).collect();
    assert_eq!(
        shapes,
        vec![
            "Start",
            "Header",
            "MultipartStart(Mixed)",
            "PartStart",
            "Header",
            "BodyStart",
            "Body(hello)",
            "PartEnd",
            "PartStart",
            "Header",
            "BodyStart",
            "Body(<p>hi</p>)",
            "PartEnd",
            "MultipartEnd",
            "End",
        ]
    );
}

fn shape(e: &Event) -> String {
    match e {
        Event::Start => "Start".to_string(),
        Event::End => "End".to_string(),
        Event::Header(_) => "Header".to_string(),
        Event::MultipartStart(Multipart::Mixed) => "MultipartStart(Mixed)".to_string(),
        Event::MultipartStart(Multipart::Alternative) => "MultipartStart(Alternative)".to_string(),
        Event::MultipartStart(Multipart::Digest) => "MultipartStart(Digest)".to_string(),
        Event::PartStart { .. } => "PartStart".to_string(),
        Event::PartEnd { .. } => "PartEnd".to_string(),
        Event::BodyStart { .. } => "BodyStart".to_string(),
        Event::Body(b) => {
            let text = String::from_utf8_lossy(&b[..b.len() - 2]).to_string();
            format!("Body({})", text)
        },
        Event::MultipartEnd => "MultipartEnd".to_string(),
    }
}

#[test]
fn quoted_boundary_parameter() {
    let msg = parse_lines(&[
        b"Content-Type: multipart/alternative; boundary=\"X Y\"\r\n",
        b"\r\n",
        b"--X Y\r\n",
        b"Content-Type: text/plain\r\n",
        b"\r\n",
        b"body\r\n",
        b"--X Y--\r\n",
    ]);
    let shapes: Vec<String> = msg.events.iter().map(|e| shape(e)).collect();
    assert!(shapes.contains(&"MultipartStart(Alternative)".to_string()));
    assert!(shapes.contains(&"MultipartEnd".to_string()));
}

#[test]
fn body_bytes_pass_through_verbatim() {
    let body_lines: Vec<&[u8]> = vec![b"one\r\n", b".. dots\r\n", b"--not a boundary\r\n"];
    let mut lines: Vec<&[u8]> = vec![b"Subject: x\r\n", b"\r\n"];
    lines.extend(body_lines.iter());
    let msg = parse_lines(&lines);
    let mut collected: Vec<u8> = Vec::new();
    for e in &msg.events {
        if let Event::Body(b) = e {
            collected.extend_from_slice(b);
        }
    }
    let mut expected: Vec<u8> = Vec::new();
    for l in &body_lines {
        expected.extend_from_slice(l);
    }
    assert_eq!(collected, expected);
}

#[test]
fn end_events_never_outnumber_start_events() {
    // a stray close boundary with no open part stays silent
    let msg = parse_lines(&[
        b"Content-Type: multipart/mixed; boundary=X\r\n",
        b"\r\n",
        b"--X\r\n",
        b"Content-Type: text/plain\r\n",
        b"\r\n",
        b"body\r\n",
        b"--X--\r\n",
        b"\r\n",
        b"--X--\r\n",
    ]);
    let ps = msg.events.iter().filter(|e| matches!(e, Event::PartStart { .. })).count();
    let pe = msg.events.iter().filter(|e| matches!(e, Event::PartEnd { .. })).count();
    let ms = msg.events.iter().filter(|e| matches!(e, Event::MultipartStart(_))).count();
    let me = msg.events.iter().filter(|e| matches!(e, Event::MultipartEnd)).count();
    assert!(pe <= ps);
    assert!(me <= ms);
}

#[test]
fn nested_multipart_events_balance() {
    let msg = parse_lines(&[
        b"Content-Type: multipart/mixed; boundary=X\r\n",
        b"\r\n",
        b"--X\r\n",
        b"Content-Type: multipart/alternative; boundary=Y\r\n",
        b"\r\n",
        b"--Y\r\n",
        b"Content-Type: text/plain\r\n",
        b"\r\n",
        b"inner\r\n",
        b"--Y--\r\n",
    ]);
    let ps = msg.events.iter().filter(|e| matches!(e, Event::PartStart { .. })).count();
    let pe = msg.events.iter().filter(|e| matches!(e, Event::PartEnd { .. })).count();
    let ms = msg.events.iter().filter(|e| matches!(e, Event::MultipartStart(_))).count();
    let me = msg.events.iter().filter(|e| matches!(e, Event::MultipartEnd)).count();
    assert!(pe <= ps);
    assert!(me <= ms);
    assert_eq!(ms, 2);
    assert_eq!(me, 1);
}
