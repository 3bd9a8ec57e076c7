//! The analyzer that turns captured TLS traffic into HTTP requests and responses.

use crate::bytes;
use crate::event::{Event, EventModel};
use crate::http2;
use crate::http2::{HTTP2State, Http2Model};
use crate::http2_frame;
use crate::http_event;
use crate::http_event::{HTTPEvent, HttpEventModel};
use crate::http_message;
use crate::json::Json;
use crate::text;
use crate::websocket;
use crate::websocket::{ConnectionModel, WebSocketState};
use vstd::prelude::*;

verus! {

/// What a parser knows.
pub struct ParserModel {
    pub include_raw_data: bool,
    pub http2: Http2Model,
    pub websocket: Map<u32, ConnectionModel>,
}

impl ParserModel {
    /// Nothing captured yet.
    pub open spec fn start(include_raw_data: bool) -> ParserModel {
        ParserModel { include_raw_data, http2: Http2Model::start(), websocket: Map::empty() }
    }
}

/// The HTTP/1 message that a text is, where it looks like one.
pub open spec fn http1_message(data: Seq<char>) -> Option<http_message::MessageModel> {
    if http_message::looks_like_http1(data) {
        http_message::message_in(data)
    } else {
        None
    }
}

/// The bytes that were captured: those written down in hexadecimal, where they are, and otherwise
/// those that the text stands for.
pub open spec fn bytes_captured(data: Json, content: Seq<char>) -> Seq<u8> {
    match data.text_field("data_hex"@) {
        Some(h) => if bytes::is_hex_text(h) {
            bytes::hex_bytes(h)
        } else {
            bytes::captured_bytes(content)
        },
        None => bytes::captured_bytes(content),
    }
}

/// `after` can follow on an event of TLS traffic, and `output` is what comes of it. `None` stands
/// for the event itself, which is passed on as it is.
///
/// A text that is an HTTP/1 message gives one event. Other bytes are taken for a frame of an open
/// WebSocket connection, or for HTTP/2 frames.
pub open spec fn takes_ssl(
    before: ParserModel,
    event: EventModel,
    after: ParserModel,
    output: Option<Seq<HttpEventModel>>,
) -> bool {
    &&& after.include_raw_data == before.include_raw_data
    &&& match event.data.text_field("data"@) {
        None => output is None && after == before,
        Some(content) => match http1_message(content) {
            Some(m) => {
                &&& after.http2 == before.http2
                &&& after.websocket == websocket::after_message(before.websocket, event, m)
                &&& output == Some(
                    seq![
                        http_message::event_of(
                            websocket::event_tid(event.data),
                            m,
                            event.data,
                            before.include_raw_data,
                        ),
                    ],
                )
            },
            None => takes_bytes(
                before,
                event,
                bytes_captured(event.data, content),
                after,
                output,
            ),
        },
    }
}

/// The same, for the bytes of an event that is no HTTP/1 message.
pub open spec fn takes_bytes(
    before: ParserModel,
    event: EventModel,
    b: Seq<u8>,
    after: ParserModel,
    output: Option<Seq<HttpEventModel>>,
) -> bool {
    &&& after.websocket == websocket::after_bytes(before.websocket, event.pid, b)
    &&& match websocket::request_text(before.websocket, event.pid, b) {
        Some(body) => {
            &&& after.http2 == before.http2
            &&& output == Some(
                seq![
                    websocket::request_event(
                        before.websocket[event.pid],
                        event,
                        body,
                        before.include_raw_data,
                    ),
                ],
            )
        },
        None => match (
            http2::direction_of(http2::event_function(event.data)),
            http2_frame::frames_in(b),
        ) {
            (Some(direction), Some(frames)) => output is Some && http2::captures_to(
                before.http2,
                event,
                direction,
                frames,
                before.include_raw_data,
                after.http2,
                output->0,
            ),
            _ => output is None && after.http2 == before.http2,
        },
    }
}

/// `after` can follow on an event, and `output` is what comes of it. Events from elsewhere than
/// TLS are passed on.
pub open spec fn takes(
    before: ParserModel,
    event: EventModel,
    after: ParserModel,
    output: Option<Seq<HttpEventModel>>,
) -> bool {
    if event.source == "ssl"@ {
        takes_ssl(before, event, after, output)
    } else {
        output is None && after == before
    }
}

/// HTTP Parser Analyzer that parses SSL traffic into HTTP requests/responses
pub struct HTTPParser {
    include_raw_data: bool,
    http2: HTTP2State,
    websocket: WebSocketState,
}

impl View for HTTPParser {
    type V = ParserModel;

    closed spec fn view(&self) -> ParserModel {
        ParserModel {
            include_raw_data: self.include_raw_data,
            http2: self.http2@,
            websocket: self.websocket@,
        }
    }
}

/// What comes out for an event.
pub open spec fn output_view(r: Option<Vec<HTTPEvent>>) -> Option<Seq<HttpEventModel>> {
    match r {
        Some(v) => Some(http_event::events_view(v@)),
        None => None,
    }
}

impl Default for HTTPParser {
    fn default() -> (r: HTTPParser)
        ensures
            r@ == ParserModel::start(true),
    {
        HTTPParser::new()
    }
}

impl HTTPParser {
    /// Create a new HTTPParser with default settings (raw data included)
    pub fn new() -> (r: HTTPParser)
        ensures
            r@ == ParserModel::start(true),
    {
        HTTPParser {
            include_raw_data: true,
            http2: HTTP2State::default(),
            websocket: WebSocketState::default(),
        }
    }

    /// Disable raw data inclusion
    pub fn disable_raw_data(self) -> (r: HTTPParser)
        ensures
            r@ == (ParserModel { include_raw_data: false, ..self@ }),
    {
        HTTPParser { include_raw_data: false, http2: self.http2, websocket: self.websocket }
    }

    /// Takes the bytes of an event that is no HTTP/1 message.
    fn handle_bytes(&mut self, event: &Event, b: &[u8]) -> (r: Option<Vec<HTTPEvent>>)
        ensures
            final(self)@.include_raw_data == old(self)@.include_raw_data,
            takes_bytes(old(self)@, event@, b@, final(self)@, output_view(r)),
    {
        match self.websocket.handle_event(event, b, self.include_raw_data) {
            Some(request) => {
                let mut events: Vec<HTTPEvent> = Vec::new();
                events.push(request);
                assert(http_event::events_view(events@) =~= seq![request@]);
                Some(events)
            },
            None => self.http2.handle_event(event, b, self.include_raw_data),
        }
    }

    /// Handle SSL events (HTTP request/response data)
    fn handle_ssl_event(&mut self, event: &Event) -> (r: Option<Vec<HTTPEvent>>)
        ensures
            takes_ssl(old(self)@, event@, final(self)@, output_view(r)),
    {
        let data_str: &str = match event.data.get_str("data") {
            Some(s) => s,
            None => {
                return None;
            },
        };
        if HTTPParser::is_http_data(data_str) {
            match HTTPParser::parse_http_message(data_str) {
                Some(parsed_message) => {
                    self.websocket.observe_handshake(event, &parsed_message);
                    let tid: u64 = match event.data.get_u64("tid") {
                        Some(n) => n,
                        None => 0,
                    };
                    let mut events: Vec<HTTPEvent> = Vec::new();
                    let ghost message = parsed_message@;
                    events.push(
                        HTTPParser::create_http_event(
                            tid,
                            parsed_message,
                            event,
                            self.include_raw_data,
                        ),
                    );
                    assert(http_event::events_view(events@) =~= seq![
                        http_message::event_of(
                            tid,
                            message,
                            event@.data,
                            self.include_raw_data,
                        ),
                    ]);
                    return Some(events);
                },
                None => {},
            }
        }
        let decoded: Option<Vec<u8>> = match event.data.get_str("data_hex") {
            Some(h) => bytes::hex_decode(h),
            None => None,
        };
        let data_bytes: Vec<u8> = match decoded {
            Some(b) => b,
            None => bytes::ssl_json_string_to_bytes(data_str),
        };
        self.handle_bytes(event, data_bytes.as_slice())
    }

    /// Takes the next event. Gives the events that come of it; `None` where the event itself is to
    /// be passed on.
    pub fn process_event(&mut self, event: &Event) -> (r: Option<Vec<HTTPEvent>>)
        ensures
            takes(old(self)@, event@, final(self)@, output_view(r)),
    {
        if text::same(event.source.as_str(), "ssl") {
            self.handle_ssl_event(event)
        } else {
            None
        }
    }
}

} // verus!
