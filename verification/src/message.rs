//! A message-level wrapper around the event parser: it collects the
//! event stream of one DATA payload and hands it back as a [`Message`]
//! when the payload ends.

use vstd::prelude::*;
use crate::mime::{Event, EventParser, Handler, mime_init, mime_step};
use crate::response::Response;

verus! {

/// A parsed message: the full event stream, in order.
pub struct Message {
    pub events: Vec<Event>,
}

/// The event receiver behind [`MessageParser`]: it keeps every event.
pub struct MessageHandler {
    pub events: Vec<Event>,
}

impl Handler for MessageHandler {
    fn event(&mut self, ev: Event) {
        self.events.push(ev);
    }
}

impl Default for MessageHandler {
    fn default() -> (r: MessageHandler)
        ensures
            r.events@.len() == 0,
    {
        MessageHandler { events: Vec::new() }
    }
}

/// Drives an [`EventParser`] over one DATA payload and collects the
/// events into a [`Message`]. Use it as the storage side of a session:
/// `data_start` opens a parse, `data` feeds each payload line, and
/// `data_end` returns the parsed message.
#[derive(Clone, Copy)]
pub struct MessageParser;

/// The state of one payload being parsed.
pub struct MessageParserData {
    pub parser: EventParser<MessageHandler>,
}

impl MessageParser {
    /// Opens a parse for one message; the envelope arguments are not
    /// needed for parsing and are ignored.
    pub fn data_start(
        &mut self,
        _domain: &[u8],
        _from: &[u8],
        _is8bit: bool,
        _to: &Vec<Vec<u8>>,
    ) -> (r: Result<MessageParserData, Response>)
        ensures
            r matches Ok(d) && d.parser.pv() == mime_init(),
    {
        let handler = MessageHandler::default();
        Ok(MessageParserData { parser: EventParser::new(handler) })
    }

    /// Feeds one payload line to the parse.
    pub fn data(&mut self, state: &mut MessageParserData, buf: &[u8]) -> (r: Result<(), Response>)
        ensures
            r is Ok,
            final(state).parser.pv() == mime_step(old(state).parser.pv(), buf@),
    {
        state.parser.data(buf)
    }

    /// Ends the parse: the final `End` event is delivered and the
    /// collected message is returned.
    pub fn data_end(&mut self, state: MessageParserData) -> (r: Result<Message, Response>)
        ensures
            r is Ok,
    {
        let handler = state.parser.end();
        Ok(Message { events: handler.events })
    }
}

} // verus!
