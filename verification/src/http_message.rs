//! HTTP/1 messages.

use crate::assoc;
use crate::bytes;
use crate::capture_metadata::{CaptureMetadataAccumulator, CaptureState};
use crate::event::Event;
use crate::headers;
use crate::headers::HeaderMap;
use crate::http_event::{HTTPEvent, HttpEventModel};
use crate::http_parser::HTTPParser;
use crate::json::Json;
use crate::text;
use vstd::prelude::*;
use vstd::slice::slice_subrange;

verus! {

#[derive(Clone, Copy, PartialEq, Eq, Debug, Structural)]
pub enum HTTPMessageType {
    Request,
    Response,
}

/// What an HTTP message says.
pub struct MessageModel {
    pub message_type: HTTPMessageType,
    pub first_line: Seq<char>,
    pub headers: Seq<(Seq<char>, Seq<char>)>,
    pub body: Option<Seq<char>>,
    pub raw_data: Seq<char>,
    pub method: Option<Seq<char>>,
    pub path: Option<Seq<char>>,
    pub protocol: Option<Seq<char>>,
    pub status_code: Option<u16>,
    pub status_text: Option<Seq<char>>,
}

/// Parsed HTTP message
#[derive(Debug, PartialEq, Eq)]
pub struct HTTPMessage {
    pub message_type: HTTPMessageType,
    pub first_line: String,
    pub headers: HeaderMap,
    pub body: Option<String>,
    pub raw_data: String,
    // Request-specific fields
    pub method: Option<String>,
    pub path: Option<String>,
    pub protocol: Option<String>,
    // Response-specific fields
    pub status_code: Option<u16>,
    pub status_text: Option<String>,
}

impl View for HTTPMessage {
    type V = MessageModel;

    open spec fn view(&self) -> MessageModel {
        MessageModel {
            message_type: self.message_type,
            first_line: self.first_line@,
            headers: self.headers@,
            body: text::optional_view(self.body),
            raw_data: self.raw_data@,
            method: text::optional_view(self.method),
            path: text::optional_view(self.path),
            protocol: text::optional_view(self.protocol),
            status_code: self.status_code,
            status_text: text::optional_view(self.status_text),
        }
    }
}

impl Clone for HTTPMessage {
    fn clone(&self) -> (r: HTTPMessage)
        ensures
            r@ == self@,
    {
        HTTPMessage {
            message_type: self.message_type,
            first_line: self.first_line.clone(),
            headers: self.headers.clone(),
            body: text::copy(&self.body),
            raw_data: self.raw_data.clone(),
            method: text::copy(&self.method),
            path: text::copy(&self.path),
            protocol: text::copy(&self.protocol),
            status_code: self.status_code,
            status_text: text::copy(&self.status_text),
        }
    }
}

/// The text names a version of HTTP/1 and one of its methods.
pub open spec fn has_request(data: Seq<char>) -> bool {
    text::contains(data, "HTTP/1."@) && {
        ||| text::contains(data, "GET "@)
        ||| text::contains(data, "POST "@)
        ||| text::contains(data, "PUT "@)
        ||| text::contains(data, "DELETE "@)
        ||| text::contains(data, "HEAD "@)
        ||| text::contains(data, "OPTIONS "@)
        ||| text::contains(data, "PATCH "@)
    }
}

/// A line of the text begins as a response of HTTP/1 does.
pub open spec fn has_response(data: Seq<char>) -> bool {
    text::starts_with(data, "HTTP/1."@) || text::contains(data, "\r\nHTTP/1."@)
}

/// The text names a common header field.
pub open spec fn has_header(data: Seq<char>) -> bool {
    ||| text::contains(data, "Content-Type:"@)
    ||| text::contains(data, "content-type:"@)
    ||| text::contains(data, "Host:"@)
    ||| text::contains(data, "host:"@)
    ||| text::contains(data, "User-Agent:"@)
    ||| text::contains(data, "user-agent:"@)
}

/// The text looks like HTTP/1.
pub open spec fn looks_like_http1(data: Seq<char>) -> bool {
    has_request(data) || has_response(data) || has_header(data)
}

pub open spec fn is_method(s: Seq<char>) -> bool {
    ||| s == "GET"@
    ||| s == "POST"@
    ||| s == "PUT"@
    ||| s == "DELETE"@
    ||| s == "HEAD"@
    ||| s == "OPTIONS"@
    ||| s == "PATCH"@
}

/// What stands before the first space of a line, and what stands after it.
pub open spec fn cut(s: Seq<char>) -> (Seq<char>, Option<Seq<char>>) {
    match text::find(s, " "@) {
        Some(i) => (s.take(i), Some(s.skip(i + 1))),
        None => (s, None),
    }
}

/// A line cut at its first two spaces: up to three words, the last with the rest of the line.
pub open spec fn words(line: Seq<char>) -> (Seq<char>, Option<Seq<char>>, Option<Seq<char>>) {
    match cut(line).1 {
        None => (cut(line).0, None, None),
        Some(rest) => (cut(line).0, Some(cut(rest).0), cut(rest).1),
    }
}

/// The first line is that of a response.
pub open spec fn is_status_line(line: Seq<char>) -> bool {
    text::starts_with(line, "HTTP/"@)
}

/// The first line is that of a request: a method, a path and a version.
pub open spec fn is_request_line(line: Seq<char>) -> bool {
    !is_status_line(line) && is_method(words(line).0) && match words(line).2 {
        Some(version) => text::starts_with(version, "HTTP/"@),
        None => false,
    }
}

/// The status code that a response line gives.
pub open spec fn status_of(line: Seq<char>) -> Option<u16> {
    match words(line).1 {
        Some(code) => match text::parse_unsigned(code, u16::MAX as nat) {
            Some(n) => Some(n as u16),
            None => None,
        },
        None => None,
    }
}

/// `fields` with the field that a header line gives; a line without a colon gives none.
pub open spec fn with_line(
    fields: Seq<(Seq<char>, Seq<char>)>,
    line: Seq<char>,
) -> Seq<(Seq<char>, Seq<char>)> {
    match text::find(line, ":"@) {
        Some(i) => assoc::set(
            fields,
            text::lowercase(text::trim(line.take(i))),
            text::trim(line.skip(i + 1)),
        ),
        None => fields,
    }
}

/// The fields that header lines give; of two with one name the later counts.
pub open spec fn fields_of(lines: Seq<Seq<char>>) -> Seq<(Seq<char>, Seq<char>)>
    decreases lines.len(),
{
    if lines.len() == 0 {
        Seq::empty()
    } else {
        with_line(fields_of(lines.drop_last()), lines.last())
    }
}

/// What stands before the first blank line; all of it where there is none.
pub open spec fn head_of(data: Seq<char>) -> Seq<char> {
    match text::find(data, "\r\n\r\n"@) {
        Some(i) => data.take(i),
        None => data,
    }
}

/// What stands after the first blank line, where that is not blank itself.
pub open spec fn body_of(data: Seq<char>) -> Option<Seq<char>> {
    match text::find(data, "\r\n\r\n"@) {
        Some(i) => if text::is_blank(data.skip(i + 4)) {
            None
        } else {
            Some(data.skip(i + 4))
        },
        None => None,
    }
}

/// The lines of the head.
pub open spec fn head_lines(data: Seq<char>) -> Seq<Seq<char>> {
    text::split(head_of(data), "\r\n"@)
}

/// The HTTP message that a text is, where its first line is that of a request or a response.
pub open spec fn message_in(data: Seq<char>) -> Option<MessageModel> {
    let lines = head_lines(data);
    let line = lines[0];
    let is_response = is_status_line(line);
    if !is_response && !is_request_line(line) {
        None
    } else {
        Some(
            MessageModel {
                message_type: if is_response {
                    HTTPMessageType::Response
                } else {
                    HTTPMessageType::Request
                },
                first_line: line,
                headers: fields_of(lines.drop_first()),
                body: body_of(data),
                raw_data: data,
                method: if is_response {
                    None
                } else {
                    Some(words(line).0)
                },
                path: if is_response {
                    None
                } else {
                    words(line).1
                },
                protocol: if !is_response {
                    words(line).2
                } else if words(line).1 is Some {
                    Some(words(line).0)
                } else {
                    None
                },
                status_code: if is_response {
                    status_of(line)
                } else {
                    None
                },
                status_text: if is_response {
                    words(line).2
                } else {
                    None
                },
            },
        )
    }
}

/// Cuts a line at its first space.
fn cut_at_space(s: &[char]) -> (r: (&[char], Option<&[char]>))
    ensures
        r.0@ == cut(s@).0,
        match r.1 {
            Some(rest) => cut(s@).1 == Some(rest@),
            None => cut(s@).1 is None,
        },
{
    proof {
        reveal_strlit(" ");
    }
    match text::position(s, " ") {
        Some(i) => {
            let total: usize = s.len();
            let head: &[char] = slice_subrange(s, 0, i);
            let rest: &[char] = slice_subrange(s, i + 1, total);
            assert(head@ =~= s@.take(i as int));
            assert(rest@ =~= s@.skip(i + 1));
            (head, Some(rest))
        },
        None => (s, None),
    }
}

/// Whether a word is a method.
fn names_method(s: &str) -> (r: bool)
    ensures
        r == is_method(s@),
{
    text::same(s, "GET") || text::same(s, "POST") || text::same(s, "PUT") || text::same(s, "DELETE")
        || text::same(s, "HEAD") || text::same(s, "OPTIONS") || text::same(s, "PATCH")
}

/// The fields that the lines after the first one give.
fn read_fields(lines: &Vec<&[char]>) -> (r: HeaderMap)
    requires
        lines@.len() > 0,
    ensures
        r@ == fields_of(text::pieces_view(lines@).drop_first()),
{
    let mut fields: HeaderMap = HeaderMap::new();
    let mut i: usize = 1;
    let ghost rest = text::pieces_view(lines@).drop_first();
    proof {
        reveal_strlit(":");
        assert(rest.take(0) =~= Seq::empty());
    }
    while i < lines.len()
        invariant
            1 <= i <= lines@.len(),
            ":"@.len() == 1,
            rest == text::pieces_view(lines@).drop_first(),
            fields@ == fields_of(rest.take(i - 1)),
        decreases lines@.len() - i,
    {
        let line: &[char] = lines[i];
        proof {
            assert(rest.take(i as int).drop_last() =~= rest.take(i - 1));
            assert(rest.take(i as int).last() == line@);
        }
        match text::position(line, ":") {
            Some(colon) => {
                let total: usize = line.len();
                let key: &[char] = slice_subrange(line, 0, colon);
                let value: &[char] = slice_subrange(line, colon + 1, total);
                assert(key@ =~= line@.take(colon as int));
                assert(value@ =~= line@.skip(colon + 1));
                let key_text: String = text::string(text::trimmed(key));
                fields.insert(
                    text::to_lowercase(key_text.as_str()),
                    text::string(text::trimmed(value)),
                );
            },
            None => {},
        }
        i += 1;
    }
    assert(rest.take(i - 1) =~= rest);
    fields
}

/// The text of a part that may be absent.
fn optional_string(s: Option<&[char]>) -> (r: Option<String>)
    ensures
        match s {
            Some(t) => text::optional_view(r) == Some(t@),
            None => r is None,
        },
{
    match s {
        Some(t) => Some(text::string(t)),
        None => None,
    }
}

impl HTTPParser {
    /// Whether a text looks like HTTP/1.
    pub fn is_http_data(data: &str) -> (r: bool)
        ensures
            r == looks_like_http1(data@),
    {
        let all: Vec<char> = text::chars(data);
        let s: &[char] = all.as_slice();
        let has_http_request: bool = text::has(s, "HTTP/1.") && (text::has(s, "GET ") || text::has(
            s,
            "POST ",
        ) || text::has(s, "PUT ") || text::has(s, "DELETE ") || text::has(s, "HEAD ") || text::has(
            s,
            "OPTIONS ",
        ) || text::has(s, "PATCH "));
        let has_http_response: bool = text::begins(s, "HTTP/1.") || text::has(s, "\r\nHTTP/1.");
        let has_http_headers: bool = text::has(s, "Content-Type:") || text::has(s, "content-type:")
            || text::has(s, "Host:") || text::has(s, "host:") || text::has(s, "User-Agent:")
            || text::has(s, "user-agent:");
        has_http_request || has_http_response || has_http_headers
    }

    /// Reads a text as an HTTP message.
    pub fn parse_http_message(data: &str) -> (r: Option<HTTPMessage>)
        ensures
            match r {
                Some(m) => message_in(data@) == Some(m@),
                None => message_in(data@) is None,
            },
    {
        let all: Vec<char> = text::chars(data);
        let s: &[char] = all.as_slice();
        let total: usize = s.len();
        proof {
            reveal_strlit("\r\n\r\n");
            reveal_strlit("\r\n");
        }
        let end: Option<usize> = text::position(s, "\r\n\r\n");
        let head: &[char] = match end {
            Some(i) => slice_subrange(s, 0, i),
            None => s,
        };
        proof {
            match end {
                Some(i) => {
                    assert(head@ =~= s@.take(i as int));
                },
                None => {},
            }
        }
        let lines: Vec<&[char]> = text::pieces(head, "\r\n");
        let line: &[char] = lines[0];
        assert(head_lines(data@)[0] == line@);

        let is_response: bool = text::begins(line, "HTTP/");
        let (first_word, rest) = cut_at_space(line);
        let (second_word, third_word): (Option<&[char]>, Option<&[char]>) = match rest {
            Some(rest) => {
                let (second, third) = cut_at_space(rest);
                (Some(second), third)
            },
            None => (None, None),
        };
        let first_text: String = text::string(first_word);
        if !is_response {
            let has_version: bool = match third_word {
                Some(version) => text::begins(version, "HTTP/"),
                None => false,
            };
            if !names_method(first_text.as_str()) || !has_version {
                return None;
            }
        }
        let status_code: Option<u16> = match second_word {
            Some(code) => match text::number(code, u16::MAX as u64) {
                Some(n) => Some(n as u16),
                None => None,
            },
            None => None,
        };
        let body: Option<String> = match end {
            Some(i) => {
                let content: &[char] = slice_subrange(s, i + 4, total);
                assert(content@ =~= s@.skip(i + 4));
                if text::blank(content) {
                    None
                } else {
                    Some(text::string(content))
                }
            },
            None => None,
        };
        let headers: HeaderMap = read_fields(&lines);
        let first_line: String = text::string(line);
        let raw_data: String = text::owned(data);
        if is_response {
            let protocol: Option<String> = match second_word {
                Some(_) => Some(first_text),
                None => None,
            };
            Some(
                HTTPMessage {
                    message_type: HTTPMessageType::Response,
                    first_line,
                    headers,
                    body,
                    raw_data,
                    method: None,
                    path: None,
                    protocol,
                    status_code,
                    status_text: optional_string(third_word),
                },
            )
        } else {
            Some(
                HTTPMessage {
                    message_type: HTTPMessageType::Request,
                    first_line,
                    headers,
                    body,
                    raw_data,
                    method: Some(first_text),
                    path: optional_string(second_word),
                    protocol: optional_string(third_word),
                    status_code: None,
                    status_text: None,
                },
            )
        }
    }
}

/// The summary of one event.
pub open spec fn single_summary(data: Json) -> crate::capture_metadata::CaptureSummary {
    CaptureState::empty().observe(data).summary()
}

/// The length that the header declares.
pub open spec fn content_length_of(fields: Seq<(Seq<char>, Seq<char>)>) -> Option<usize> {
    match assoc::lookup(fields, "content-length"@) {
        Some(v) => match text::parse_unsigned(v, usize::MAX as nat) {
            Some(n) => Some(n as usize),
            None => None,
        },
        None => None,
    }
}

/// The header declares a body in chunks.
pub open spec fn chunked(fields: Seq<(Seq<char>, Seq<char>)>) -> bool {
    match assoc::lookup(fields, "transfer-encoding"@) {
        Some(v) => text::contains(text::lowercase(v), "chunked"@),
        None => false,
    }
}

/// The bytes of the parts of a message, with the line ends and separators between them.
pub open spec fn message_size(m: MessageModel) -> nat {
    vstd::utf8::encode_utf8(m.first_line).len() + headers::total_bytes(m.headers, 4) + match m.body {
        Some(b) => vstd::utf8::encode_utf8(b).len(),
        None => 0,
    } + 4
}

/// The event for a message that was captured with `data`.
pub open spec fn event_of(
    tid: u64,
    m: MessageModel,
    data: Json,
    include_raw_data: bool,
) -> HttpEventModel {
    HttpEventModel {
        capture_metadata: single_summary(data),
        tid,
        message_type: if m.message_type == HTTPMessageType::Request {
            "request"@
        } else {
            "response"@
        },
        first_line: m.first_line,
        method: m.method,
        path: m.path,
        protocol: m.protocol,
        status_code: m.status_code,
        status_text: m.status_text,
        headers: m.headers,
        body: m.body,
        body_hex: match m.body {
            Some(b) => Some(bytes::hex_text(bytes::captured_bytes(b))),
            None => None,
        },
        total_size: headers::bounded(message_size(m)),
        has_body: m.body is Some,
        is_chunked: chunked(m.headers),
        content_length: content_length_of(m.headers),
        original_source: "ssl"@,
        raw_data: if include_raw_data {
            Some(m.raw_data)
        } else {
            None
        },
    }
}

impl HTTPParser {
    /// Makes the event for a message.
    pub fn create_http_event(
        tid: u64,
        parsed_message: HTTPMessage,
        original_event: &Event,
        include_raw_data: bool,
    ) -> (r: HTTPEvent)
        ensures
            r@ == event_of(tid, parsed_message@, original_event@.data, include_raw_data),
    {
        let message_type: String = match parsed_message.message_type {
            HTTPMessageType::Request => text::owned("request"),
            HTTPMessageType::Response => text::owned("response"),
        };
        let content_length: Option<usize> = match parsed_message.headers.get("content-length") {
            Some(v) => {
                let value: Vec<char> = text::chars(v);
                match text::number(value.as_slice(), usize::MAX as u64) {
                    Some(n) => Some(n as usize),
                    None => None,
                }
            },
            None => None,
        };
        let is_chunked: bool = match parsed_message.headers.get("transfer-encoding") {
            Some(v) => {
                let lower: Vec<char> = text::chars(text::to_lowercase(v).as_str());
                text::has(lower.as_slice(), "chunked")
            },
            None => false,
        };
        let has_body: bool = parsed_message.body.is_some();
        let body_hex: Option<String> = match &parsed_message.body {
            Some(b) => {
                let raw: Vec<u8> = bytes::ssl_json_string_to_bytes(b.as_str());
                Some(bytes::hex_encode(raw.as_slice()))
            },
            None => None,
        };
        let body_size: usize = match &parsed_message.body {
            Some(b) => text::byte_len(b.as_str()),
            None => 0,
        };
        let total_size: usize = text::byte_len(parsed_message.first_line.as_str()).saturating_add(
            parsed_message.headers.size_with(4),
        ).saturating_add(body_size).saturating_add(4);
        let mut metadata: CaptureMetadataAccumulator = CaptureMetadataAccumulator::default();
        metadata.observe_event(original_event);
        HTTPEvent {
            capture_metadata: metadata.finish(),
            tid,
            message_type,
            first_line: parsed_message.first_line,
            method: parsed_message.method,
            path: parsed_message.path,
            protocol: parsed_message.protocol,
            status_code: parsed_message.status_code,
            status_text: parsed_message.status_text,
            headers: parsed_message.headers,
            body: parsed_message.body,
            body_hex,
            total_size,
            has_body,
            is_chunked,
            content_length,
            original_source: text::owned("ssl"),
            raw_data: if include_raw_data {
                Some(parsed_message.raw_data)
            } else {
                None
            },
        }
    }
}

/// Nothing of a message is lost or changed: its head, a blank line and its body are the text that
/// it was read from, and the lines of the head are its first line and its header lines.
pub proof fn law_messages_keep_their_text(data: Seq<char>)
    requires
        message_in(data) is Some,
    ensures
        ({
            let m = message_in(data)->0;
            &&& m.raw_data == data
            &&& m.body is Some ==> head_of(data) + "\r\n\r\n"@ + m.body->0 == data
            &&& head_lines(data).len() > 0
            &&& m.first_line == head_lines(data)[0]
            &&& text::join(head_lines(data), "\r\n"@) == head_of(data)
            &&& !text::contains(m.first_line, "\r\n"@)
        }),
{
    reveal_strlit("\r\n\r\n");
    reveal_strlit("\r\n");
    text::law_pieces_join_to_the_text(head_of(data), "\r\n"@);
    text::lemma_find(data, "\r\n\r\n"@);
    match text::find(data, "\r\n\r\n"@) {
        Some(i) => {
            assert(data.subrange(i, i + 4) =~= "\r\n\r\n"@);
            assert(data.take(i) + "\r\n\r\n"@ + data.skip(i + 4) =~= data);
        },
        None => {},
    }
}

proof fn lemma_fields_distinct(lines: Seq<Seq<char>>)
    ensures
        assoc::distinct(assoc::keys(fields_of(lines))),
    decreases lines.len(),
{
    if lines.len() > 0 {
        lemma_fields_distinct(lines.drop_last());
        let line = lines.last();
        match text::find(line, ":"@) {
            Some(i) => {
                assoc::lemma_set(
                    fields_of(lines.drop_last()),
                    text::lowercase(text::trim(line.take(i))),
                    text::trim(line.skip(i + 1)),
                );
            },
            None => {},
        }
    }
}

/// No header field of a message occurs twice.
pub proof fn law_header_fields_are_distinct(data: Seq<char>)
    requires
        message_in(data) is Some,
    ensures
        assoc::distinct(assoc::keys((message_in(data)->0).headers)),
{
    lemma_fields_distinct(head_lines(data).drop_first());
}

} // verus!
