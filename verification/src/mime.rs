//! A streaming MIME event parser. It is fed the message one
//! CRLF-terminated line at a time and pushes events — headers, body
//! lines, part and multipart boundaries — to a [`Handler`].
//!
//! The parser's whole behaviour is written down once as the spec
//! function [`mime_step`]; the executable parser is proved to follow
//! it, and the event-stream laws are proved of the model.

use vstd::prelude::*;
use crate::parser::{find_byte, ltrim};
use crate::response::Response;

verus! {

broadcast use vstd::array::group_array_axioms;

/// The multipart kinds the parser tells apart; anything else counts as
/// mixed.
#[derive(Clone, Copy, Debug, PartialEq, Eq, Structural)]
pub enum Multipart {
    Mixed,
    Alternative,
    Digest,
}

/// The parser's six states.
#[derive(Clone, Copy, Debug, PartialEq, Eq, Structural)]
pub enum ParseState {
    Start,
    Header,
    MultipartHeader,
    MultipartPreamble,
    PartStart,
    Body,
}

/// Mathematical model of a [`Header`].
pub ghost enum HeaderV {
    Subject(Seq<u8>),
    Sender(Seq<u8>),
    Recipient(Seq<u8>),
    Date(Seq<u8>),
    MessageId(Seq<u8>),
    ContentType { mime_type: Seq<u8>, parameters: Seq<(Seq<u8>, Seq<u8>)> },
    ContentTransferEncoding(Seq<u8>),
    ContentDisposition(Seq<u8>),
    Unknown { name: Seq<u8>, value: Seq<u8> },
    Unstructured(Seq<u8>),
}

/// One parsed header line. The known header names get their own arms;
/// `Sender` and `Recipient` carry the `From:` and `To:` headers.
#[derive(Clone, Debug, PartialEq, Eq)]
pub enum Header {
    Subject(Vec<u8>),
    Sender(Vec<u8>),
    Recipient(Vec<u8>),
    Date(Vec<u8>),
    MessageId(Vec<u8>),
    ContentType { mime_type: Vec<u8>, parameters: Vec<(Vec<u8>, Vec<u8>)> },
    ContentTransferEncoding(Vec<u8>),
    ContentDisposition(Vec<u8>),
    Unknown { name: Vec<u8>, value: Vec<u8> },
    Unstructured(Vec<u8>),
}

impl View for Header {
    type V = HeaderV;

    open spec fn view(&self) -> HeaderV {
        match self {
            Header::Subject(v) => HeaderV::Subject(v@),
            Header::Sender(v) => HeaderV::Sender(v@),
            Header::Recipient(v) => HeaderV::Recipient(v@),
            Header::Date(v) => HeaderV::Date(v@),
            Header::MessageId(v) => HeaderV::MessageId(v@),
            Header::ContentType { mime_type, parameters } => HeaderV::ContentType {
                mime_type: mime_type@,
                parameters: parameters@.map(|_i: int, p: (Vec<u8>, Vec<u8>)| (p.0@, p.1@)),
            },
            Header::ContentTransferEncoding(v) => HeaderV::ContentTransferEncoding(v@),
            Header::ContentDisposition(v) => HeaderV::ContentDisposition(v@),
            Header::Unknown { name, value } => HeaderV::Unknown { name: name@, value: value@ },
            Header::Unstructured(v) => HeaderV::Unstructured(v@),
        }
    }
}

/// Mathematical model of an [`Event`].
pub ghost enum EventV {
    Start,
    End,
    Header(HeaderV),
    MultipartStart(Multipart),
    PartStart { offset: u64 },
    PartEnd { offset: u64 },
    BodyStart { offset: u64 },
    Body(Seq<u8>),
    MultipartEnd,
}

/// One parsing event. Offsets count the raw bytes consumed before the
/// place the event speaks of.
#[derive(Clone, Debug, PartialEq, Eq)]
pub enum Event {
    /// The first event of every stream.
    Start,
    /// The last event of every stream.
    End,
    /// One logical header line, continuations already joined.
    Header(Header),
    /// An opening multipart boundary was seen for a multipart not yet
    /// announced.
    MultipartStart(Multipart),
    /// A part begins at this offset.
    PartStart { offset: u64 },
    /// The part that began last ends at this offset.
    PartEnd { offset: u64 },
    /// The body of the current entity begins at this offset.
    BodyStart { offset: u64 },
    /// One raw body line, terminator included.
    Body(Vec<u8>),
    /// A closing multipart boundary was seen.
    MultipartEnd,
}

impl View for Event {
    type V = EventV;

    open spec fn view(&self) -> EventV {
        match self {
            Event::Start => EventV::Start,
            Event::End => EventV::End,
            Event::Header(h) => EventV::Header(h@),
            Event::MultipartStart(m) => EventV::MultipartStart(*m),
            Event::PartStart { offset } => EventV::PartStart { offset: *offset },
            Event::PartEnd { offset } => EventV::PartEnd { offset: *offset },
            Event::BodyStart { offset } => EventV::BodyStart { offset: *offset },
            Event::Body(v) => EventV::Body(v@),
            Event::MultipartEnd => EventV::MultipartEnd,
        }
    }
}

/// A receiver of parsing events.
pub trait Handler {
    /// Called once per event, in stream order.
    fn event(&mut self, ev: Event);
}

// --- the header grammar ---

/// ASCII lower-casing of one byte.
pub open spec fn down(b: u8) -> u8 {
    if 65 <= b <= 90 {
        (b + 32) as u8
    } else {
        b
    }
}

/// ASCII lower-casing of a byte string.
pub open spec fn lower_seq(s: Seq<u8>) -> Seq<u8> {
    s.map(|_i: int, b: u8| down(b))
}

/// The string with its trailing spaces removed.
pub open spec fn rtrim(s: Seq<u8>) -> Seq<u8>
    decreases s.len(),
{
    if s.len() > 0 && s[s.len() - 1] == 32 {
        rtrim(s.take(s.len() - 1))
    } else {
        s
    }
}

/// The string without its CRLF terminator, when it has one.
pub open spec fn strip_crlf(s: Seq<u8>) -> Seq<u8> {
    if s.len() >= 2 && s[s.len() - 2] == 13 && s[s.len() - 1] == 10 {
        s.take(s.len() - 2)
    } else {
        s
    }
}

pub open spec fn lit_subject() -> Seq<u8> {
    seq![115u8, 117u8, 98u8, 106u8, 101u8, 99u8, 116u8]
}

pub open spec fn lit_from_name() -> Seq<u8> {
    seq![102u8, 114u8, 111u8, 109u8]
}

pub open spec fn lit_to_name() -> Seq<u8> {
    seq![116u8, 111u8]
}

pub open spec fn lit_date() -> Seq<u8> {
    seq![100u8, 97u8, 116u8, 101u8]
}

pub open spec fn lit_message_id() -> Seq<u8> {
    seq![109u8, 101u8, 115u8, 115u8, 97u8, 103u8, 101u8, 45u8, 105u8, 100u8]
}

pub open spec fn lit_content_type() -> Seq<u8> {
    seq![99u8, 111u8, 110u8, 116u8, 101u8, 110u8, 116u8, 45u8, 116u8, 121u8, 112u8, 101u8]
}

pub open spec fn lit_content_transfer_encoding() -> Seq<u8> {
    seq![
        99u8, 111u8, 110u8, 116u8, 101u8, 110u8, 116u8, 45u8, 116u8, 114u8, 97u8, 110u8, 115u8,
        102u8, 101u8, 114u8, 45u8, 101u8, 110u8, 99u8, 111u8, 100u8, 105u8, 110u8, 103u8,
    ]
}

pub open spec fn lit_content_disposition() -> Seq<u8> {
    seq![
        99u8, 111u8, 110u8, 116u8, 101u8, 110u8, 116u8, 45u8, 100u8, 105u8, 115u8, 112u8, 111u8,
        115u8, 105u8, 116u8, 105u8, 111u8, 110u8,
    ]
}

pub open spec fn lit_multipart_slash() -> Seq<u8> {
    seq![109u8, 117u8, 108u8, 116u8, 105u8, 112u8, 97u8, 114u8, 116u8, 47u8]
}

pub open spec fn lit_alternative() -> Seq<u8> {
    seq![97u8, 108u8, 116u8, 101u8, 114u8, 110u8, 97u8, 116u8, 105u8, 118u8, 101u8]
}

pub open spec fn lit_digest() -> Seq<u8> {
    seq![100u8, 105u8, 103u8, 101u8, 115u8, 116u8]
}

pub open spec fn lit_boundary() -> Seq<u8> {
    seq![98u8, 111u8, 117u8, 110u8, 100u8, 97u8, 114u8, 121u8]
}

/// Strips one pair of surrounding double quotes, if both are there.
pub open spec fn unquote(s: Seq<u8>) -> Seq<u8> {
    if s.len() >= 2 && s[0] == 34 && s[s.len() - 1] == 34 {
        s.subrange(1, s.len() - 1)
    } else {
        s
    }
}

/// One `key=value` parameter, trimmed and unquoted; `None` when there
/// is no `=`.
pub open spec fn param_of(part: Seq<u8>) -> Option<(Seq<u8>, Seq<u8>)> {
    let t = rtrim(ltrim(part));
    let e = find_byte(t, 61);
    if e < t.len() {
        Some((t.take(e), unquote(t.skip(e + 1))))
    } else {
        None
    }
}

/// The `;`-separated parameters of a Content-Type value.
pub open spec fn parse_params(s: Seq<u8>) -> Seq<(Seq<u8>, Seq<u8>)>
    decreases s.len(),
    via parse_params_decreases
{
    let j = find_byte(s, 59);
    let head: Seq<(Seq<u8>, Seq<u8>)> = match param_of(s.take(j)) {
        Some(p) => seq![p],
        None => seq![],
    };
    if j < s.len() {
        head + parse_params(s.skip(j + 1))
    } else {
        head
    }
}

#[via_fn]
proof fn parse_params_decreases(s: Seq<u8>) {
    crate::parser::lemma_find_byte(s, 59);
}

/// The first value bound to the given key.
pub open spec fn param_lookup(ps: Seq<(Seq<u8>, Seq<u8>)>, key: Seq<u8>) -> Option<Seq<u8>>
    decreases ps.len(),
{
    if ps.len() == 0 {
        None
    } else if ps[0].0 == key {
        Some(ps[0].1)
    } else {
        param_lookup(ps.skip(1), key)
    }
}

/// The mime type and parameters of a Content-Type header value.
pub open spec fn content_type_of(value: Seq<u8>) -> (Seq<u8>, Seq<(Seq<u8>, Seq<u8>)>) {
    let j = find_byte(value, 59);
    let mtype = rtrim(value.take(j));
    let params: Seq<(Seq<u8>, Seq<u8>)> = if j < value.len() {
        parse_params(value.skip(j + 1))
    } else {
        seq![]
    };
    (mtype, params)
}

/// What one logical header line means. A line without a colon is kept
/// unstructured; a known name gets its typed arm.
pub open spec fn header_of(line: Seq<u8>) -> HeaderV {
    let k = find_byte(line, 58);
    if k >= line.len() {
        HeaderV::Unstructured(line)
    } else {
        let name = lower_seq(line.take(k));
        let value = ltrim(line.skip(k + 1));
        if name == lit_subject() {
            HeaderV::Subject(value)
        } else if name == lit_from_name() {
            HeaderV::Sender(value)
        } else if name == lit_to_name() {
            HeaderV::Recipient(value)
        } else if name == lit_date() {
            HeaderV::Date(value)
        } else if name == lit_message_id() {
            HeaderV::MessageId(value)
        } else if name == lit_content_type() {
            let (mtype, params) = content_type_of(value);
            HeaderV::ContentType { mime_type: mtype, parameters: params }
        } else if name == lit_content_transfer_encoding() {
            HeaderV::ContentTransferEncoding(value)
        } else if name == lit_content_disposition() {
            HeaderV::ContentDisposition(value)
        } else {
            HeaderV::Unknown { name: line.take(k), value }
        }
    }
}

/// The multipart kind a mime type names; `None` for a non-multipart
/// type. Matching is case-insensitive.
pub open spec fn multipart_kind_of(mtype: Seq<u8>) -> Option<Multipart> {
    let low = lower_seq(mtype);
    if low.len() >= 10 && low.take(10) == lit_multipart_slash() {
        let sub = low.skip(10);
        if sub == lit_alternative() {
            Some(Multipart::Alternative)
        } else if sub == lit_digest() {
            Some(Multipart::Digest)
        } else {
            Some(Multipart::Mixed)
        }
    } else {
        None
    }
}


// --- the parser model ---

/// The current entity's type: a plain type, or a multipart container.
pub enum Mime {
    Type(Vec<u8>),
    Multipart(Multipart),
}

/// Mathematical model of a [`Mime`].
pub ghost enum MimeV {
    Type(Seq<u8>),
    Multipart(Multipart),
}

impl View for Mime {
    type V = MimeV;

    open spec fn view(&self) -> MimeV {
        match self {
            Mime::Type(v) => MimeV::Type(v@),
            Mime::Multipart(m) => MimeV::Multipart(*m),
        }
    }
}

/// One suspended enclosing entity, waiting on the multipart stack.
pub struct MultipartFrame {
    pub kind: Multipart,
    pub boundary: Vec<u8>,
    pub announced: bool,
    pub in_part: bool,
}

/// Mathematical model of a [`MultipartFrame`].
pub ghost struct FrameV {
    pub kind: Multipart,
    pub boundary: Seq<u8>,
    pub announced: bool,
    pub in_part: bool,
}

impl View for MultipartFrame {
    type V = FrameV;

    open spec fn view(&self) -> FrameV {
        FrameV {
            kind: self.kind,
            boundary: self.boundary@,
            announced: self.announced,
            in_part: self.in_part,
        }
    }
}

/// Mathematical model of an [`EventParser`]: everything but the
/// handler, with the events pushed so far.
pub ghost struct ParserV {
    pub state: ParseState,
    pub offset: u64,
    pub content_type: MimeV,
    pub boundary: Option<Seq<u8>>,
    pub stack: Seq<FrameV>,
    pub held: Option<(Seq<u8>, u64)>,
    pub in_part: bool,
    pub announced: bool,
    pub events: Seq<EventV>,
}

/// Byte-counter addition, stuck at the ceiling rather than wrapping.
pub open spec fn add_off(a: u64, n: int) -> u64 {
    if a + n > u64::MAX {
        u64::MAX
    } else {
        (a + n) as u64
    }
}

/// Whether the line opens a part: it starts with the active boundary.
pub open spec fn spec_is_open_boundary(v: ParserV, buf: Seq<u8>) -> bool {
    match v.boundary {
        Some(b) => buf.len() >= b.len() && buf.take(b.len() as int) == b,
        None => false,
    }
}

/// Whether the line closes the active multipart: the boundary followed
/// by `--` and the line end.
pub open spec fn spec_is_close_boundary(v: ParserV, buf: Seq<u8>) -> bool {
    match v.boundary {
        Some(b) => buf.len() >= 4 && buf.len() > b.len() + 2 && buf.take(b.len() as int) == b
            && buf.skip(buf.len() - 4) == seq![45u8, 45u8, 13u8, 10u8],
        None => false,
    }
}

/// Restores the enclosing entity after a close boundary; with nothing
/// left to restore, the boundary is retired so that a stray boundary
/// line can emit no further end events.
pub open spec fn spec_pop(v: ParserV) -> ParserV {
    if v.stack.len() > 0 {
        let f = v.stack.last();
        ParserV {
            content_type: MimeV::Multipart(f.kind),
            boundary: Some(f.boundary),
            announced: f.announced,
            in_part: f.in_part,
            stack: v.stack.drop_last(),
            ..v
        }
    } else {
        ParserV { boundary: None, announced: false, in_part: false, ..v }
    }
}

/// A Content-Type header lands: the enclosing entity is suspended on
/// the stack where one is open, and the new type takes over. A new
/// multipart brings its own boundary; a plain type leaves the active
/// boundary in place.
pub open spec fn apply_content_type(
    v: ParserV,
    mtype: Seq<u8>,
    params: Seq<(Seq<u8>, Seq<u8>)>,
) -> ParserV {
    let replaced = multipart_kind_of(mtype) is Some;
    let stack2 = match (v.content_type, v.boundary) {
        (MimeV::Multipart(m), Some(b)) => v.stack.push(
            FrameV {
                kind: m,
                boundary: b,
                announced: if replaced {
                    v.announced
                } else {
                    false
                },
                in_part: if replaced {
                    v.in_part
                } else {
                    false
                },
            },
        ),
        _ => v.stack,
    };
    let pushed = v.content_type is Multipart && v.boundary is Some;
    match multipart_kind_of(mtype) {
        Some(kind) => ParserV {
            content_type: MimeV::Multipart(kind),
            boundary: match param_lookup(params, lit_boundary()) {
                Some(b) => Some(seq![45u8, 45u8] + b),
                None => None,
            },
            stack: stack2,
            announced: if pushed {
                false
            } else {
                v.announced
            },
            in_part: if pushed {
                false
            } else {
                v.in_part
            },
            ..v
        },
        None => ParserV { content_type: MimeV::Type(mtype), stack: stack2, ..v },
    }
}

/// One header-section line: a bare CRLF ends the section, anything
/// else is a header.
pub open spec fn spec_header_field(v: ParserV, buf: Seq<u8>, st: ParseState) -> ParserV {
    if buf.len() >= 2 && buf[0] == 13 && buf[1] == 10 {
        if st is MultipartHeader {
            ParserV { state: ParseState::MultipartPreamble, ..v }
        } else {
            ParserV {
                state: ParseState::Body,
                events: v.events.push(EventV::BodyStart { offset: add_off(v.offset, 2) }),
                ..v
            }
        }
    } else {
        let h = header_of(buf);
        let v1 = match h {
            HeaderV::ContentType { mime_type, parameters } => apply_content_type(
                v,
                mime_type,
                parameters,
            ),
            _ => v,
        };
        ParserV {
            state: if v1.content_type is Multipart {
                ParseState::MultipartHeader
            } else {
                st
            },
            events: v1.events.push(EventV::Header(h)),
            ..v1
        }
    }
}

/// One complete line reaches the automaton; `n` is the raw byte count
/// it stands for.
pub open spec fn spec_handle_line(v: ParserV, buf: Seq<u8>, n: u64) -> ParserV {
    let v2 = match v.state {
        ParseState::Start => v,
        ParseState::MultipartHeader => spec_header_field(v, buf, ParseState::MultipartHeader),
        ParseState::Header => spec_header_field(v, buf, ParseState::Header),
        ParseState::PartStart => {
            let v1 = if !v.in_part {
                ParserV {
                    in_part: true,
                    events: v.events.push(EventV::PartStart { offset: v.offset }),
                    ..v
                }
            } else {
                v
            };
            spec_header_field(v1, buf, ParseState::Header)
        },
        ParseState::MultipartPreamble => {
            if spec_is_open_boundary(v, buf) {
                let v1 = if !v.announced {
                    match v.content_type {
                        MimeV::Multipart(m) => ParserV {
                            announced: true,
                            events: v.events.push(EventV::MultipartStart(m)),
                            ..v
                        },
                        _ => v,
                    }
                } else {
                    v
                };
                ParserV { state: ParseState::PartStart, ..v1 }
            } else {
                v
            }
        },
        ParseState::Body => {
            if spec_is_close_boundary(v, buf) {
                let v1 = if v.in_part {
                    ParserV {
                        in_part: false,
                        events: v.events.push(EventV::PartEnd { offset: v.offset }),
                        ..v
                    }
                } else {
                    v
                };
                let v2 = if v1.announced {
                    ParserV { events: v1.events.push(EventV::MultipartEnd), ..v1 }
                } else {
                    v1
                };
                ParserV { state: ParseState::Header, ..spec_pop(v2) }
            } else if spec_is_open_boundary(v, buf) {
                let v1 = if v.in_part {
                    ParserV {
                        in_part: false,
                        events: v.events.push(EventV::PartEnd { offset: v.offset }),
                        ..v
                    }
                } else {
                    v
                };
                ParserV { state: ParseState::PartStart, ..v1 }
            } else {
                ParserV { state: ParseState::Body, events: v.events.push(EventV::Body(buf)), ..v }
            }
        },
    };
    ParserV { offset: add_off(v2.offset, n as int), ..v2 }
}

/// One raw line during a header section: continuation lines are joined
/// onto the held logical line, which is released when the next
/// distinct line or the bare CRLF arrives.
pub open spec fn spec_handle_header(v: ParserV, buf: Seq<u8>) -> ParserV {
    if buf.len() >= 2 && buf[0] == 13 && buf[1] == 10 {
        let v1 = match v.held {
            Some((l, n)) => spec_handle_line(ParserV { held: None, ..v }, l, n),
            None => v,
        };
        spec_handle_line(v1, buf, buf.len() as u64)
    } else {
        match v.held {
            None => ParserV { held: Some((strip_crlf(buf), buf.len() as u64)), ..v },
            Some((l, n)) => {
                if buf.len() > 0 && (buf[0] == 32 || buf[0] == 9) {
                    ParserV {
                        held: Some((l + strip_crlf(buf), add_off(n, buf.len() as int))),
                        ..v
                    }
                } else {
                    spec_handle_line(
                        ParserV { held: Some((strip_crlf(buf), buf.len() as u64)), ..v },
                        l,
                        n,
                    )
                }
            },
        }
    }
}

/// What one fed line does to the parser: the whole behaviour of
/// [`EventParser::data`].
pub open spec fn mime_step(v: ParserV, buf: Seq<u8>) -> ParserV {
    match v.state {
        ParseState::Start => spec_handle_header(
            ParserV { state: ParseState::Header, events: v.events.push(EventV::Start), ..v },
            buf,
        ),
        ParseState::Header => spec_handle_header(v, buf),
        ParseState::MultipartHeader => spec_handle_header(v, buf),
        ParseState::PartStart => spec_handle_header(v, buf),
        _ => spec_handle_line(v, buf, buf.len() as u64),
    }
}

/// The parser a fresh stream starts with.
pub open spec fn mime_init() -> ParserV {
    ParserV {
        state: ParseState::Start,
        offset: 0,
        content_type: MimeV::Type(seq![]),
        boundary: None,
        stack: seq![],
        held: None,
        in_part: false,
        announced: false,
        events: seq![],
    }
}


// --- executable grammar ---

/// The view of a parameter list.
pub open spec fn params_view(ps: Seq<(Vec<u8>, Vec<u8>)>) -> Seq<(Seq<u8>, Seq<u8>)> {
    ps.map(|_i: int, p: (Vec<u8>, Vec<u8>)| (p.0@, p.1@))
}

fn lower_x(s: &[u8]) -> (r: Vec<u8>)
    ensures
        r@ == lower_seq(s@),
{
    let mut r: Vec<u8> = Vec::new();
    let mut i: usize = 0;
    while i < s.len()
        invariant
            i <= s@.len(),
            r@.len() == i,
            forall|j: int| 0 <= j < i ==> r@[j] == down(s@[j]),
        decreases s.len() - i,
    {
        let b = s[i];
        if 65 <= b && b <= 90 {
            r.push(b + 32);
        } else {
            r.push(b);
        }
        i = i + 1;
    }
    proof {
        assert(r@ =~= lower_seq(s@));
    }
    r
}

proof fn lemma_rtrim_at(s: Seq<u8>, i: int)
    requires
        0 <= i <= s.len(),
        forall|j: int| i <= j < s.len() ==> s[j] == 32,
        i > 0 ==> s[i - 1] != 32,
    ensures
        rtrim(s) == s.take(i),
    decreases s.len(),
{
    if s.len() > 0 && s[s.len() - 1] == 32 {
        assert(i < s.len());
        lemma_rtrim_at(s.take(s.len() - 1), i);
        assert(s.take(s.len() - 1).take(i) =~= s.take(i));
    } else {
        assert(i == s.len());
        assert(s.take(i) =~= s);
    }
}

fn rtrim_x(s: &[u8]) -> (r: Vec<u8>)
    ensures
        r@ == rtrim(s@),
{
    let mut e: usize = s.len();
    while e > 0 && s[e - 1] == 32
        invariant
            e <= s@.len(),
            forall|j: int| e <= j < s@.len() ==> s@[j] == 32,
        decreases e,
    {
        e = e - 1;
    }
    proof {
        lemma_rtrim_at(s@, e as int);
        assert(s@.take(e as int) =~= s@.subrange(0, e as int));
    }
    crate::parser::subvec(s, 0, e)
}

fn unquote_x(s: &[u8]) -> (r: Vec<u8>)
    ensures
        r@ == unquote(s@),
{
    if s.len() >= 2 && s[0] == 34 && s[s.len() - 1] == 34 {
        crate::parser::subvec(s, 1, s.len() - 1)
    } else {
        crate::parser::subvec(s, 0, s.len())
    }
}

fn param_of_x(part: &[u8]) -> (r: Option<(Vec<u8>, Vec<u8>)>)
    ensures
        match r {
            Some(p) => param_of(part@) == Some((p.0@, p.1@)),
            None => param_of(part@) is None,
        },
{
    let lt = crate::parser::ltrim_x(part);
    let t = rtrim_x(lt.as_slice());
    let e = crate::parser::find_byte_x(t.as_slice(), 61);
    proof {
        crate::parser::lemma_find_byte(t@, 61);
    }
    if e < t.len() {
        proof {
            assert(t@.take(e as int) =~= t@.subrange(0, e as int));
            assert(t@.skip(e + 1) =~= t@.subrange(e + 1, t@.len() as int));
        }
        let key = crate::parser::subvec(t.as_slice(), 0, e);
        let raw = crate::parser::subvec(t.as_slice(), e + 1, t.len());
        let val = unquote_x(raw.as_slice());
        Some((key, val))
    } else {
        None
    }
}

fn parse_params_x(s: &[u8]) -> (r: Vec<(Vec<u8>, Vec<u8>)>)
    ensures
        params_view(r@) == parse_params(s@),
    decreases s@.len(),
{
    let j = crate::parser::find_byte_x(s, 59);
    proof {
        crate::parser::lemma_find_byte(s@, 59);
        assert(s@.take(j as int) =~= s@.subrange(0, j as int));
    }
    let part = crate::parser::subvec(s, 0, j);
    let mut acc: Vec<(Vec<u8>, Vec<u8>)> = Vec::new();
    match param_of_x(part.as_slice()) {
        Some(p) => {
            acc.push(p);
        },
        None => {},
    }
    let ghost head = params_view(acc@);
    proof {
        match param_of(s@.take(j as int)) {
            Some(p) => {
                assert(head =~= seq![p]);
            },
            None => {
                assert(head =~= Seq::<(Seq<u8>, Seq<u8>)>::empty());
            },
        }
    }
    if j < s.len() {
        proof {
            assert(s@.skip(j + 1) =~= s@.subrange(j + 1, s@.len() as int));
        }
        let rest = crate::parser::subvec(s, j + 1, s.len());
        let mut tailv = parse_params_x(rest.as_slice());
        let ghost tail_view = params_view(tailv@);
        let ghost acc_before = acc@;
        acc.append(&mut tailv);
        proof {
            assert(params_view(acc@) =~= params_view(acc_before) + tail_view);
        }
        acc
    } else {
        acc
    }
}

proof fn lemma_param_lookup_skip(ps: Seq<(Seq<u8>, Seq<u8>)>, key: Seq<u8>, i: int)
    requires
        0 <= i <= ps.len(),
        forall|j: int| 0 <= j < i ==> ps[j].0 != key,
    ensures
        param_lookup(ps, key) == param_lookup(ps.skip(i), key),
    decreases i,
{
    if i > 0 {
        assert(ps[0].0 != key);
        lemma_param_lookup_skip(ps.skip(1), key, i - 1);
        assert(ps.skip(1).skip(i - 1) =~= ps.skip(i));
    } else {
        assert(ps.skip(0) =~= ps);
    }
}

fn lookup_boundary(params: &Vec<(Vec<u8>, Vec<u8>)>) -> (r: Option<Vec<u8>>)
    ensures
        match r {
            Some(v) => param_lookup(params_view(params@), lit_boundary()) == Some(v@),
            None => param_lookup(params_view(params@), lit_boundary()) is None,
        },
{
    let key: [u8; 8] = [98, 111, 117, 110, 100, 97, 114, 121];
    proof {
        assert(key@ =~= lit_boundary());
    }
    let ghost psv = params_view(params@);
    let mut i: usize = 0;
    while i < params.len()
        invariant
            i <= params@.len(),
            psv == params_view(params@),
            psv.len() == params@.len(),
            forall|j: int| 0 <= j < i ==> psv[j].0 != lit_boundary(),
            key@ == lit_boundary(),
        decreases params.len() - i,
    {
        let hit = crate::parser::bytes_eq(params[i].0.as_slice(), key.as_slice());
        if hit {
            let v = crate::parser::subvec(params[i].1.as_slice(), 0, params[i].1.len());
            proof {
                lemma_param_lookup_skip(psv, lit_boundary(), i as int);
                assert(psv.skip(i as int)[0] == psv[i as int]);
                assert(psv.skip(i as int).len() > 0);
                assert(v@ =~= params@[i as int].1@);
            }
            return Some(v);
        }
        i = i + 1;
    }
    proof {
        lemma_param_lookup_skip(psv, lit_boundary(), i as int);
        assert(psv.skip(i as int).len() == 0);
    }
    None
}

fn multipart_kind_x(mtype: &[u8]) -> (r: Option<Multipart>)
    ensures
        r == multipart_kind_of(mtype@),
{
    let low = lower_x(mtype);
    let lit_mp: [u8; 10] = [109, 117, 108, 116, 105, 112, 97, 114, 116, 47];
    let lit_alt: [u8; 11] = [97, 108, 116, 101, 114, 110, 97, 116, 105, 118, 101];
    let lit_dig: [u8; 6] = [100, 105, 103, 101, 115, 116];
    proof {
        assert(lit_mp@ =~= lit_multipart_slash());
        assert(lit_alt@ =~= lit_alternative());
        assert(lit_dig@ =~= lit_digest());
    }
    if low.len() < 10 {
        return None;
    }
    proof {
        assert(low@.take(10) =~= low@.subrange(0, 10));
        assert(low@.skip(10) =~= low@.subrange(10, low@.len() as int));
    }
    let head = crate::parser::subvec(low.as_slice(), 0, 10);
    if !crate::parser::bytes_eq(head.as_slice(), lit_mp.as_slice()) {
        return None;
    }
    let sub = crate::parser::subvec(low.as_slice(), 10, low.len());
    if crate::parser::bytes_eq(sub.as_slice(), lit_alt.as_slice()) {
        Some(Multipart::Alternative)
    } else if crate::parser::bytes_eq(sub.as_slice(), lit_dig.as_slice()) {
        Some(Multipart::Digest)
    } else {
        Some(Multipart::Mixed)
    }
}

/// Parses one logical header line.
fn header_x(line: &[u8]) -> (h: Header)
    ensures
        h@ == header_of(line@),
{
    let k = crate::parser::find_byte_x(line, 58);
    proof {
        crate::parser::lemma_find_byte(line@, 58);
    }
    if k >= line.len() {
        let whole = crate::parser::subvec(line, 0, line.len());
        proof {
            assert(whole@ =~= line@);
        }
        return Header::Unstructured(whole);
    }
    proof {
        assert(line@.take(k as int) =~= line@.subrange(0, k as int));
        assert(line@.skip(k + 1) =~= line@.subrange(k + 1, line@.len() as int));
    }
    let rawname = crate::parser::subvec(line, 0, k);
    let name = lower_x(rawname.as_slice());
    let value = crate::parser::ltrim_x(crate::parser::subvec(line, k + 1, line.len()).as_slice());
    let lit_subj: [u8; 7] = [115, 117, 98, 106, 101, 99, 116];
    let lit_fr: [u8; 4] = [102, 114, 111, 109];
    let lit_t: [u8; 2] = [116, 111];
    let lit_dt: [u8; 4] = [100, 97, 116, 101];
    let lit_mid: [u8; 10] = [109, 101, 115, 115, 97, 103, 101, 45, 105, 100];
    let lit_ct: [u8; 12] = [99, 111, 110, 116, 101, 110, 116, 45, 116, 121, 112, 101];
    let lit_cte: [u8; 25] = [
        99, 111, 110, 116, 101, 110, 116, 45, 116, 114, 97, 110, 115, 102, 101, 114, 45, 101, 110,
        99, 111, 100, 105, 110, 103,
    ];
    let lit_cd: [u8; 19] = [
        99, 111, 110, 116, 101, 110, 116, 45, 100, 105, 115, 112, 111, 115, 105, 116, 105, 111,
        110,
    ];
    proof {
        assert(lit_subj@ =~= lit_subject());
        assert(lit_fr@ =~= lit_from_name());
        assert(lit_t@ =~= lit_to_name());
        assert(lit_dt@ =~= lit_date());
        assert(lit_mid@ =~= lit_message_id());
        assert(lit_ct@ =~= lit_content_type());
        assert(lit_cte@ =~= lit_content_transfer_encoding());
        assert(lit_cd@ =~= lit_content_disposition());
    }
    let ns = name.as_slice();
    if crate::parser::bytes_eq(ns, lit_subj.as_slice()) {
        Header::Subject(value)
    } else if crate::parser::bytes_eq(ns, lit_fr.as_slice()) {
        Header::Sender(value)
    } else if crate::parser::bytes_eq(ns, lit_t.as_slice()) {
        Header::Recipient(value)
    } else if crate::parser::bytes_eq(ns, lit_dt.as_slice()) {
        Header::Date(value)
    } else if crate::parser::bytes_eq(ns, lit_mid.as_slice()) {
        Header::MessageId(value)
    } else if crate::parser::bytes_eq(ns, lit_ct.as_slice()) {
        let j = crate::parser::find_byte_x(value.as_slice(), 59);
        proof {
            crate::parser::lemma_find_byte(value@, 59);
            assert(value@.take(j as int) =~= value@.subrange(0, j as int));
        }
        let mtype = rtrim_x(crate::parser::subvec(value.as_slice(), 0, j).as_slice());
        let parameters = if j < value.len() {
            proof {
                assert(value@.skip(j + 1) =~= value@.subrange(j + 1, value@.len() as int));
            }
            parse_params_x(crate::parser::subvec(value.as_slice(), j + 1, value.len()).as_slice())
        } else {
            Vec::new()
        };
        proof {
            if j >= value@.len() {
                assert(params_view(parameters@) =~= Seq::<(Seq<u8>, Seq<u8>)>::empty());
            }
        }
        let h = Header::ContentType { mime_type: mtype, parameters };
        proof {
            assert(h@ == header_of(line@));
        }
        h
    } else if crate::parser::bytes_eq(ns, lit_cte.as_slice()) {
        Header::ContentTransferEncoding(value)
    } else if crate::parser::bytes_eq(ns, lit_cd.as_slice()) {
        Header::ContentDisposition(value)
    } else {
        Header::Unknown { name: rawname, value }
    }
}


// --- the executable parser ---

fn add_off64(a: u64, n: u64) -> (r: u64)
    ensures
        r == add_off(a, n as int),
{
    if a <= u64::MAX - n {
        a + n
    } else {
        u64::MAX
    }
}

fn strip_crlf_x(buf: &[u8]) -> (r: Vec<u8>)
    ensures
        r@ == strip_crlf(buf@),
{
    let n = buf.len();
    let to = if n >= 2 && buf[n - 2] == 13 && buf[n - 1] == 10 {
        n - 2
    } else {
        n
    };
    let r = crate::parser::subvec(buf, 0, to);
    proof {
        assert(r@ =~= strip_crlf(buf@));
    }
    r
}

/// An event driven MIME parser: each fed line moves the automaton and
/// pushes the earned events to the handler.
pub struct EventParser<H: Handler> {
    pub state: ParseState,
    pub offset: u64,
    pub handler: H,
    pub content_type: Mime,
    pub boundary: Option<Vec<u8>>,
    pub multipart_stack: Vec<MultipartFrame>,
    pub held: Option<(Vec<u8>, u64)>,
    pub in_part: bool,
    pub announced: bool,
    /// The events pushed to the handler so far, in order.
    pub events: Ghost<Seq<EventV>>,
}

impl<H: Handler> EventParser<H> {
    /// The parser's model: everything but the handler.
    pub open spec fn pv(&self) -> ParserV {
        ParserV {
            state: self.state,
            offset: self.offset,
            content_type: self.content_type@,
            boundary: match self.boundary {
                Some(b) => Some(b@),
                None => None,
            },
            stack: self.multipart_stack@.map(|_i: int, f: MultipartFrame| f@),
            held: match self.held {
                Some((l, n)) => Some((l@, n)),
                None => None,
            },
            in_part: self.in_part,
            announced: self.announced,
            events: self.events@,
        }
    }

    /// A fresh parser; the handler will receive this stream's events.
    pub fn new(handler: H) -> (r: EventParser<H>)
        ensures
            r.pv() == mime_init(),
    {
        let r = EventParser {
            state: ParseState::Start,
            offset: 0,
            handler,
            content_type: Mime::Type(Vec::new()),
            boundary: None,
            multipart_stack: Vec::new(),
            held: None,
            in_part: false,
            announced: false,
            events: Ghost(Seq::empty()),
        };
        proof {
            assert(r.pv().stack =~= mime_init().stack);
            assert(r.pv().content_type == mime_init().content_type);
        }
        r
    }

    /// Ends the stream: the handler receives the final `End` event and
    /// is handed back.
    pub fn end(self) -> (r: H) {
        let mut this = self;
        this.handler.event(Event::End);
        this.handler
    }

    fn emit(&mut self, ev: Event)
        ensures
            final(self).pv() == (ParserV {
                events: old(self).pv().events.push(ev@),
                ..old(self).pv()
            }),
    {
        let ghost evv = ev@;
        self.handler.event(ev);
        proof {
            self.events@ = self.events@.push(evv);
        }
    }

    fn is_open_boundary(&self, buf: &[u8]) -> (r: bool)
        ensures
            r == spec_is_open_boundary(self.pv(), buf@),
    {
        match &self.boundary {
            Some(b) => {
                if buf.len() >= b.len() {
                    let pre = crate::parser::subvec(buf, 0, b.len());
                    proof {
                        assert(pre@ =~= buf@.take(b@.len() as int));
                    }
                    crate::parser::bytes_eq(pre.as_slice(), b.as_slice())
                } else {
                    false
                }
            },
            None => false,
        }
    }

    fn is_close_boundary(&self, buf: &[u8]) -> (r: bool)
        ensures
            r == spec_is_close_boundary(self.pv(), buf@),
    {
        match &self.boundary {
            Some(b) => {
                if buf.len() >= 4 && buf.len() - 2 > b.len() {
                    let pre = crate::parser::subvec(buf, 0, b.len());
                    proof {
                        assert(pre@ =~= buf@.take(b@.len() as int));
                        assert(buf@.skip(buf@.len() - 4) =~= buf@.subrange(
                            buf@.len() - 4,
                            buf@.len() as int,
                        ));
                    }
                    let tl = crate::parser::subvec(buf, buf.len() - 4, buf.len());
                    let pat: [u8; 4] = [45, 45, 13, 10];
                    proof {
                        assert(pat@ =~= seq![45u8, 45u8, 13u8, 10u8]);
                    }
                    crate::parser::bytes_eq(pre.as_slice(), b.as_slice())
                        && crate::parser::bytes_eq(tl.as_slice(), pat.as_slice())
                } else {
                    false
                }
            },
            None => false,
        }
    }

    fn pop_frame(&mut self)
        ensures
            final(self).pv() == (ParserV { state: old(self).pv().state, ..spec_pop(old(self).pv()) }),
    {
        let ghost oldstack = self.multipart_stack@.map(|_i: int, f: MultipartFrame| f@);
        match self.multipart_stack.pop() {
            Some(f) => {
                self.content_type = Mime::Multipart(f.kind);
                self.boundary = Some(f.boundary);
                self.announced = f.announced;
                self.in_part = f.in_part;
                proof {
                    assert(self.multipart_stack@.map(|_i: int, f2: MultipartFrame| f2@)
                        =~= oldstack.drop_last());
                    assert(oldstack.last() == f@);
                }
            },
            None => {
                self.boundary = None;
                self.announced = false;
                self.in_part = false;
            },
        }
    }

    fn apply_ct(&mut self, mime_type: Vec<u8>, parameters: Vec<(Vec<u8>, Vec<u8>)>)
        ensures
            final(self).pv() == apply_content_type(
                old(self).pv(),
                mime_type@,
                params_view(parameters@),
            ),
    {
        let replaced = multipart_kind_x(mime_type.as_slice());
        let ghost oldstack = self.multipart_stack@.map(|_i: int, f: MultipartFrame| f@);
        let push_frame: Option<MultipartFrame> = match (&self.content_type, &self.boundary) {
            (Mime::Multipart(m), Some(b)) => {
                let kb = crate::parser::subvec(b.as_slice(), 0, b.len());
                proof {
                    assert(kb@ =~= b@);
                }
                Some(MultipartFrame {
                    kind: *m,
                    boundary: kb,
                    announced: if replaced.is_some() {
                        self.announced
                    } else {
                        false
                    },
                    in_part: if replaced.is_some() {
                        self.in_part
                    } else {
                        false
                    },
                })
            },
            _ => None,
        };
        let push_frame_flag = match &push_frame {
            Some(_) => true,
            None => false,
        };
        match push_frame {
            Some(f) => {
                let ghost fv = f@;
                self.multipart_stack.push(f);
                proof {
                    assert(self.multipart_stack@.map(|_i: int, f2: MultipartFrame| f2@)
                        =~= oldstack.push(fv));
                }
            },
            None => {},
        }
        match replaced {
            Some(kind) => {
                self.content_type = Mime::Multipart(kind);
                self.boundary = match lookup_boundary(&parameters) {
                    Some(b) => {
                        let mut full: Vec<u8> = Vec::new();
                        full.push(45);
                        full.push(45);
                        let ghost bv = b@;
                        crate::parser::push_all(&mut full, b.as_slice());
                        proof {
                            assert(full@ =~= seq![45u8, 45u8] + bv);
                        }
                        Some(full)
                    },
                    None => None,
                };
                if push_frame_flag {
                    self.announced = false;
                    self.in_part = false;
                }
            },
            None => {
                self.content_type = Mime::Type(mime_type);
            },
        }
    }

    fn header_field_x(&mut self, buf: &[u8], st: ParseState)
        ensures
            final(self).pv() == spec_header_field(old(self).pv(), buf@, st),
    {
        if buf.len() >= 2 && buf[0] == 13 && buf[1] == 10 {
            if st == ParseState::MultipartHeader {
                self.state = ParseState::MultipartPreamble;
            } else {
                let off = add_off64(self.offset, 2);
                self.emit(Event::BodyStart { offset: off });
                self.state = ParseState::Body;
            }
        } else {
            let h = header_x(buf);
            match h {
                Header::ContentType { mime_type, parameters } => {
                    self.apply_ct(mime_type, parameters);
                    let h2 = header_x(buf);
                    self.emit(Event::Header(h2));
                },
                other => {
                    self.emit(Event::Header(other));
                },
            }
            let is_mp = match &self.content_type {
                Mime::Multipart(_) => true,
                _ => false,
            };
            self.state = if is_mp {
                ParseState::MultipartHeader
            } else {
                st
            };
        }
    }

    fn handle_line_x(&mut self, buf: &[u8], n: u64)
        ensures
            final(self).pv() == spec_handle_line(old(self).pv(), buf@, n),
    {
        match self.state {
            ParseState::Start => {},
            ParseState::MultipartHeader => self.header_field_x(buf, ParseState::MultipartHeader),
            ParseState::Header => self.header_field_x(buf, ParseState::Header),
            ParseState::PartStart => {
                if !self.in_part {
                    let off = self.offset;
                    self.emit(Event::PartStart { offset: off });
                    self.in_part = true;
                }
                self.header_field_x(buf, ParseState::Header);
            },
            ParseState::MultipartPreamble => {
                if self.is_open_boundary(buf) {
                    if !self.announced {
                        let kind = match &self.content_type {
                            Mime::Multipart(m) => Some(*m),
                            _ => None,
                        };
                        match kind {
                            Some(k) => {
                                self.emit(Event::MultipartStart(k));
                                self.announced = true;
                            },
                            None => {},
                        }
                    }
                    self.state = ParseState::PartStart;
                }
            },
            ParseState::Body => {
                if self.is_close_boundary(buf) {
                    if self.in_part {
                        let off = self.offset;
                        self.emit(Event::PartEnd { offset: off });
                        self.in_part = false;
                    }
                    if self.announced {
                        self.emit(Event::MultipartEnd);
                    }
                    self.pop_frame();
                    self.state = ParseState::Header;
                } else if self.is_open_boundary(buf) {
                    if self.in_part {
                        let off = self.offset;
                        self.emit(Event::PartEnd { offset: off });
                        self.in_part = false;
                    }
                    self.state = ParseState::PartStart;
                } else {
                    let line = crate::parser::subvec(buf, 0, buf.len());
                    proof {
                        assert(line@ =~= buf@);
                    }
                    self.emit(Event::Body(line));
                }
            },
        }
        self.offset = add_off64(self.offset, n);
    }

    fn handle_header_x(&mut self, buf: &[u8])
        ensures
            final(self).pv() == spec_handle_header(old(self).pv(), buf@),
    {
        if buf.len() >= 2 && buf[0] == 13 && buf[1] == 10 {
            let mut h: Option<(Vec<u8>, u64)> = None;
            core::mem::swap(&mut h, &mut self.held);
            match h {
                Some((l, n)) => {
                    self.handle_line_x(l.as_slice(), n);
                },
                None => {},
            }
            self.handle_line_x(buf, buf.len() as u64);
        } else {
            let mut h: Option<(Vec<u8>, u64)> = None;
            core::mem::swap(&mut h, &mut self.held);
            match h {
                None => {
                    let l = strip_crlf_x(buf);
                    self.held = Some((l, buf.len() as u64));
                },
                Some((l, n)) => {
                    if buf.len() > 0 && (buf[0] == 32 || buf[0] == 9) {
                        let mut l2 = l;
                        let cont = strip_crlf_x(buf);
                        crate::parser::push_all(&mut l2, cont.as_slice());
                        self.held = Some((l2, add_off64(n, buf.len() as u64)));
                    } else {
                        let newheld = strip_crlf_x(buf);
                        self.held = Some((newheld, buf.len() as u64));
                        self.handle_line_x(l.as_slice(), n);
                    }
                },
            }
        }
    }

    /// Feeds one raw CRLF-terminated line. The grammar is total, so
    /// this always succeeds; the `Result` stands for sinks that can
    /// fail.
    pub fn data(&mut self, buf: &[u8]) -> (r: Result<(), Response>)
        ensures
            r is Ok,
            final(self).pv() == mime_step(old(self).pv(), buf@),
    {
        match self.state {
            ParseState::Start => {
                self.emit(Event::Start);
                self.state = ParseState::Header;
                self.handle_header_x(buf);
            },
            ParseState::Header => self.handle_header_x(buf),
            ParseState::MultipartHeader => self.handle_header_x(buf),
            ParseState::PartStart => self.handle_header_x(buf),
            _ => self.handle_line_x(buf, buf.len() as u64),
        }
        Ok(())
    }
}


// --- laws of the event stream ---

pub open spec fn count_ps(es: Seq<EventV>) -> int
    decreases es.len(),
{
    if es.len() == 0 {
        0
    } else {
        count_ps(es.drop_last()) + if es.last() is PartStart {
            1int
        } else {
            0int
        }
    }
}

pub open spec fn count_pe(es: Seq<EventV>) -> int
    decreases es.len(),
{
    if es.len() == 0 {
        0
    } else {
        count_pe(es.drop_last()) + if es.last() is PartEnd {
            1int
        } else {
            0int
        }
    }
}

pub open spec fn count_ms(es: Seq<EventV>) -> int
    decreases es.len(),
{
    if es.len() == 0 {
        0
    } else {
        count_ms(es.drop_last()) + if es.last() is MultipartStart {
            1int
        } else {
            0int
        }
    }
}

pub open spec fn count_me(es: Seq<EventV>) -> int
    decreases es.len(),
{
    if es.len() == 0 {
        0
    } else {
        count_me(es.drop_last()) + if es.last() is MultipartEnd {
            1int
        } else {
            0int
        }
    }
}

pub open spec fn count_in_part(st: Seq<FrameV>) -> int
    decreases st.len(),
{
    if st.len() == 0 {
        0
    } else {
        count_in_part(st.drop_last()) + if st.last().in_part {
            1int
        } else {
            0int
        }
    }
}

pub open spec fn count_announced(st: Seq<FrameV>) -> int
    decreases st.len(),
{
    if st.len() == 0 {
        0
    } else {
        count_announced(st.drop_last()) + if st.last().announced {
            1int
        } else {
            0int
        }
    }
}

/// The parser's well-formedness: the stream begins with `Start`, and
/// the open parts and multiparts on the books balance the start and end
/// events emitted so far.
pub open spec fn wf(v: ParserV) -> bool {
    &&& (v.state is Start <==> v.events.len() == 0)
    &&& (v.events.len() > 0 ==> v.events[0] is Start)
    &&& count_pe(v.events) + count_in_part(v.stack) + (
    if v.in_part {
        1int
    } else {
        0int
    }) == count_ps(v.events)
    &&& count_me(v.events) + count_announced(v.stack) + (
    if v.announced {
        1int
    } else {
        0int
    }) == count_ms(v.events)
}

proof fn lemma_counts_push(es: Seq<EventV>, e: EventV)
    ensures
        count_ps(es.push(e)) == count_ps(es) + (if e is PartStart { 1int } else { 0int }),
        count_pe(es.push(e)) == count_pe(es) + (if e is PartEnd { 1int } else { 0int }),
        count_ms(es.push(e)) == count_ms(es) + (if e is MultipartStart { 1int } else { 0int }),
        count_me(es.push(e)) == count_me(es) + (if e is MultipartEnd { 1int } else { 0int }),
        es.len() > 0 ==> es.push(e)[0] == es[0],
{
    assert(es.push(e).drop_last() =~= es);
    assert(es.push(e).last() == e);
}

proof fn lemma_frame_push(st: Seq<FrameV>, f: FrameV)
    ensures
        count_in_part(st.push(f)) == count_in_part(st) + (if f.in_part { 1int } else { 0int }),
        count_announced(st.push(f)) == count_announced(st) + (if f.announced { 1int } else { 0int }),
{
    assert(st.push(f).drop_last() =~= st);
    assert(st.push(f).last() == f);
}

proof fn lemma_counts_nonneg(es: Seq<EventV>)
    ensures
        count_ps(es) >= 0,
        count_pe(es) >= 0,
        count_ms(es) >= 0,
        count_me(es) >= 0,
    decreases es.len(),
{
    if es.len() > 0 {
        lemma_counts_nonneg(es.drop_last());
    }
}

proof fn lemma_frame_counts_nonneg(st: Seq<FrameV>)
    ensures
        count_in_part(st) >= 0,
        count_announced(st) >= 0,
    decreases st.len(),
{
    if st.len() > 0 {
        lemma_frame_counts_nonneg(st.drop_last());
    }
}

proof fn lemma_wf_apply_ct(v: ParserV, mtype: Seq<u8>, params: Seq<(Seq<u8>, Seq<u8>)>)
    requires
        wf(v),
        !(v.state is Start),
    ensures
        wf(apply_content_type(v, mtype, params)),
        apply_content_type(v, mtype, params).events == v.events,
        apply_content_type(v, mtype, params).state == v.state,
{
    let replaced = multipart_kind_of(mtype) is Some;
    match (v.content_type, v.boundary) {
        (MimeV::Multipart(m), Some(b)) => {
            let f = FrameV {
                kind: m,
                boundary: b,
                announced: if replaced {
                    v.announced
                } else {
                    false
                },
                in_part: if replaced {
                    v.in_part
                } else {
                    false
                },
            };
            lemma_frame_push(v.stack, f);
        },
        _ => {},
    }
}

proof fn lemma_wf_header_field(v: ParserV, buf: Seq<u8>, st: ParseState)
    requires
        wf(v),
        !(v.state is Start),
        !(st is Start),
    ensures
        wf(spec_header_field(v, buf, st)),
        !(spec_header_field(v, buf, st).state is Start),
    decreases 1int,
{
    if buf.len() >= 2 && buf[0] == 13 && buf[1] == 10 {
        if !(st is MultipartHeader) {
            lemma_counts_push(v.events, EventV::BodyStart { offset: add_off(v.offset, 2) });
        }
    } else {
        let h = header_of(buf);
        match h {
            HeaderV::ContentType { mime_type, parameters } => {
                lemma_wf_apply_ct(v, mime_type, parameters);
                lemma_counts_push(apply_content_type(v, mime_type, parameters).events, EventV::Header(h));
            },
            _ => {
                lemma_counts_push(v.events, EventV::Header(h));
            },
        }
    }
}

#[verifier::rlimit(100)]
proof fn lemma_wf_handle_line(v: ParserV, buf: Seq<u8>, n: u64)
    requires
        wf(v),
        !(v.state is Start),
    ensures
        wf(spec_handle_line(v, buf, n)),
        !(spec_handle_line(v, buf, n).state is Start),
{
    match v.state {
        ParseState::Start => {},
        ParseState::MultipartHeader => lemma_wf_header_field(v, buf, ParseState::MultipartHeader),
        ParseState::Header => lemma_wf_header_field(v, buf, ParseState::Header),
        ParseState::PartStart => {
            let v1 = if !v.in_part {
                ParserV {
                    in_part: true,
                    events: v.events.push(EventV::PartStart { offset: v.offset }),
                    ..v
                }
            } else {
                v
            };
            if !v.in_part {
                lemma_counts_push(v.events, EventV::PartStart { offset: v.offset });
            }
            lemma_wf_header_field(v1, buf, ParseState::Header);
        },
        ParseState::MultipartPreamble => {
            if spec_is_open_boundary(v, buf) && !v.announced {
                match v.content_type {
                    MimeV::Multipart(m) => {
                        lemma_counts_push(v.events, EventV::MultipartStart(m));
                    },
                    _ => {},
                }
            }
        },
        ParseState::Body => {
            if spec_is_close_boundary(v, buf) {
                let v1 = if v.in_part {
                    ParserV {
                        in_part: false,
                        events: v.events.push(EventV::PartEnd { offset: v.offset }),
                        ..v
                    }
                } else {
                    v
                };
                if v.in_part {
                    lemma_counts_push(v.events, EventV::PartEnd { offset: v.offset });
                }
                let v2 = if v1.announced {
                    ParserV { events: v1.events.push(EventV::MultipartEnd), ..v1 }
                } else {
                    v1
                };
                if v1.announced {
                    lemma_counts_push(v1.events, EventV::MultipartEnd);
                }
                if v2.stack.len() > 0 {
                    assert(v2.stack.drop_last().push(v2.stack.last()) =~= v2.stack);
                    lemma_frame_push(v2.stack.drop_last(), v2.stack.last());
                }
            } else if spec_is_open_boundary(v, buf) {
                if v.in_part {
                    lemma_counts_push(v.events, EventV::PartEnd { offset: v.offset });
                }
            } else {
                lemma_counts_push(v.events, EventV::Body(buf));
            }
        },
    }
}

proof fn lemma_wf_handle_header(v: ParserV, buf: Seq<u8>)
    requires
        wf(v),
        !(v.state is Start),
    ensures
        wf(spec_handle_header(v, buf)),
        !(spec_handle_header(v, buf).state is Start),
{
    if buf.len() >= 2 && buf[0] == 13 && buf[1] == 10 {
        match v.held {
            Some((l, n)) => {
                lemma_wf_handle_line(ParserV { held: None, ..v }, l, n);
                lemma_wf_handle_line(
                    spec_handle_line(ParserV { held: None, ..v }, l, n),
                    buf,
                    buf.len() as u64,
                );
            },
            None => {
                lemma_wf_handle_line(v, buf, buf.len() as u64);
            },
        }
    } else {
        match v.held {
            None => {},
            Some((l, n)) => {
                if !(buf.len() > 0 && (buf[0] == 32 || buf[0] == 9)) {
                    lemma_wf_handle_line(
                        ParserV { held: Some((strip_crlf(buf), buf.len() as u64)), ..v },
                        l,
                        n,
                    );
                }
            },
        }
    }
}

/// Law: stepping a well-formed parser keeps it well formed; in
/// particular the first event of every non-empty stream is `Start`, and
/// end events never outnumber the start events they answer.
pub proof fn lemma_mime_step_wf(v: ParserV, buf: Seq<u8>)
    requires
        wf(v),
    ensures
        wf(mime_step(v, buf)),
{
    match v.state {
        ParseState::Start => {
            let v1 = ParserV {
                state: ParseState::Header,
                events: v.events.push(EventV::Start),
                ..v
            };
            lemma_counts_push(v.events, EventV::Start);
            assert(v1.events[0] is Start);
            lemma_wf_handle_header(v1, buf);
        },
        ParseState::Header => lemma_wf_handle_header(v, buf),
        ParseState::MultipartHeader => lemma_wf_handle_header(v, buf),
        ParseState::PartStart => lemma_wf_handle_header(v, buf),
        _ => lemma_wf_handle_line(v, buf, buf.len() as u64),
    }
}

/// The parser a fresh stream starts with is well formed.
pub proof fn lemma_mime_init_wf()
    ensures
        wf(mime_init()),
{
}

/// The parser after a whole sequence of fed lines.
pub open spec fn mime_run(lines: Seq<Seq<u8>>) -> ParserV
    decreases lines.len(),
{
    if lines.len() == 0 {
        mime_init()
    } else {
        mime_step(mime_run(lines.drop_last()), lines.last())
    }
}

/// The finished stream: what the handler has received once `end` ran.
pub open spec fn mime_finish(v: ParserV) -> Seq<EventV> {
    v.events.push(EventV::End)
}

/// Law: the finished event stream of any non-empty parse begins with
/// `Start` and ends with `End`. (A parse of no lines at all yields the
/// lone `End` event.)
pub proof fn lemma_stream_begins_and_ends(lines: Seq<Seq<u8>>)
    requires
        lines.len() > 0,
    ensures
        wf(mime_run(lines)),
        mime_finish(mime_run(lines)).len() >= 2,
        mime_finish(mime_run(lines))[0] is Start,
        mime_finish(mime_run(lines)).last() is End,
    decreases lines.len(),
{
    if lines.len() == 1 {
        lemma_mime_init_wf();
        lemma_mime_step_wf(mime_init(), lines.last());
    } else {
        lemma_stream_begins_and_ends(lines.drop_last());
        lemma_mime_step_wf(mime_run(lines.drop_last()), lines.last());
    }
    let v = mime_run(lines);
    assert(!(v.state is Start));
    assert(v.events.len() > 0);
    assert(mime_finish(v)[0] == v.events[0]);
}

/// Law: in every well-formed parser, at most as many `PartEnd` as
/// `PartStart` events, and at most as many `MultipartEnd` as
/// `MultipartStart` events, have been emitted.
pub proof fn lemma_balanced_counts(v: ParserV)
    requires
        wf(v),
    ensures
        count_pe(v.events) <= count_ps(v.events),
        count_me(v.events) <= count_ms(v.events),
{
    lemma_frame_counts_nonneg(v.stack);
}

/// Law: an ordinary payload line in the body reaches the handler as a
/// `Body` event carrying exactly the line's bytes.
pub proof fn lemma_body_line_verbatim(v: ParserV, buf: Seq<u8>)
    requires
        v.state is Body,
        !spec_is_close_boundary(v, buf),
        !spec_is_open_boundary(v, buf),
    ensures
        mime_step(v, buf).events == v.events.push(EventV::Body(buf)),
{
}

} // verus!
