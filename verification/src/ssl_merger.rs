//! Merging of TLS reads into complete HTTP messages.
//!
//! An HTTP message often spans several reads of a TLS connection. The merger holds the reads of
//! each thread back until they make up a complete message, and then gives one event for them all.

use crate::assoc;
use crate::event::{Event, EventModel};
use crate::json;
use crate::json::{Json, JsonValue};
use crate::text;
use std::collections::HashMap;
use vstd::prelude::*;
use vstd::slice::slice_subrange;

verus! {

broadcast use vstd::std_specs::hash::group_hash_axioms;

/// The text has the marks of an HTTP/1 message.
pub open spec fn looks_like_http(data: Seq<char>) -> bool {
    ||| text::starts_with(data, "HTTP/"@)
    ||| text::contains(data, " HTTP/1."@)
    ||| text::contains(data, "GET "@)
    ||| text::contains(data, "POST "@)
    ||| text::contains(data, "PUT "@)
    ||| text::contains(data, "DELETE "@)
}

/// The length that a header line declares.
pub open spec fn declared_length(line: Seq<char>) -> Option<nat> {
    if text::starts_with(text::lowercase(line), "content-length:"@) {
        text::parse_unsigned(text::trim(text::without_first(line, 15)), usize::MAX as nat)
    } else {
        None
    }
}

/// The first length that a header line declares.
pub open spec fn first_declared_length(lines: Seq<Seq<char>>) -> Option<nat>
    decreases lines.len(),
{
    if lines.len() == 0 {
        None
    } else {
        match declared_length(lines[0]) {
            Some(n) => Some(n),
            None => first_declared_length(lines.drop_first()),
        }
    }
}

/// The header says that the body comes in chunks.
pub open spec fn declares_chunks(head: Seq<char>) -> bool {
    text::contains(text::lowercase(head), "transfer-encoding: chunked"@)
}

/// The chunk of size zero, which ends the body, is there.
pub open spec fn has_last_chunk(body: Seq<char>) -> bool {
    text::ends_with(body, "0\r\n\r\n"@) || text::contains(body, "\r\n0\r\n\r\n"@)
}

/// The body that the header announces is there.
pub open spec fn body_is_complete(head: Seq<char>, body: Seq<char>) -> bool {
    if declares_chunks(head) {
        has_last_chunk(body)
    } else {
        match first_declared_length(text::split(head, "\r\n"@)) {
            Some(n) => vstd::utf8::encode_utf8(body).len() >= n,
            None => true,
        }
    }
}

/// The text holds a complete HTTP message.
pub open spec fn is_complete(data: Seq<char>) -> bool {
    looks_like_http(data) && match text::find(data, "\r\n\r\n"@) {
        None => false,
        Some(end) => body_is_complete(data.take(end), data.skip(end + 4)),
    }
}

/// The first length that a header line declares.
fn header_length(lines: &Vec<&[char]>) -> (r: Option<u64>)
    ensures
        match r {
            Some(n) => first_declared_length(text::pieces_view(lines@)) == Some(n as nat),
            None => first_declared_length(text::pieces_view(lines@)) is None,
        },
{
    let mut i: usize = 0;
    assert(text::pieces_view(lines@).skip(0) =~= text::pieces_view(lines@));
    while i < lines.len()
        invariant
            i <= lines@.len(),
            first_declared_length(text::pieces_view(lines@)) == first_declared_length(
                text::pieces_view(lines@).skip(i as int),
            ),
        decreases lines@.len() - i,
    {
        let line: &[char] = lines[i];
        proof {
            let rest = text::pieces_view(lines@).skip(i as int);
            assert(rest[0] == line@);
            assert(rest.drop_first() =~= text::pieces_view(lines@).skip(i + 1));
        }
        let line_text: String = text::string(line);
        let lower: Vec<char> = text::chars(text::to_lowercase(line_text.as_str()).as_str());
        if text::begins(lower.as_slice(), "content-length:") {
            let value: &[char] = text::trimmed(text::after_first(line, 15));
            match text::number(value, usize::MAX as u64) {
                Some(n) => {
                    return Some(n);
                },
                None => {},
            }
        }
        i += 1;
    }
    None
}

/// What a buffer holds: the text read so far, and what is known of the reads.
pub struct BufferModel {
    pub data: Seq<char>,
    pub first_timestamp: u64,
    pub last_timestamp: u64,
    pub original: EventModel,
    pub event_count: usize,
}

/// The reads that are held back, by thread.
pub struct MergerModel {
    pub buffers: Map<u64, BufferModel>,
    pub timeout_ms: u64,
}

/// The event is a TLS read.
pub open spec fn is_read(event: EventModel) -> bool {
    event.source == "ssl"@ && event.data.text_field("function"@) == Some("READ/RECV"@)
}

pub open spec fn read_tid(event: EventModel) -> u64 {
    match event.data.unsigned_field("tid"@) {
        Some(n) => n,
        None => 0,
    }
}

pub open spec fn read_text(event: EventModel) -> Seq<char> {
    match event.data.text_field("data"@) {
        Some(s) => s,
        None => Seq::empty(),
    }
}

/// When the read was seen, in nanoseconds where the event says so.
pub open spec fn read_time(event: EventModel) -> u64 {
    match event.data.unsigned_field("timestamp_ns"@) {
        Some(n) => n,
        None => event.timestamp,
    }
}

impl BufferModel {
    /// The buffer that a first read opens.
    pub open spec fn opened_by(event: EventModel) -> BufferModel {
        BufferModel {
            data: Seq::empty(),
            first_timestamp: read_time(event),
            last_timestamp: read_time(event),
            original: event,
            event_count: 0,
        }
    }

    /// The buffer with one more read.
    pub open spec fn with(self, event: EventModel) -> BufferModel {
        BufferModel {
            data: self.data + read_text(event),
            last_timestamp: read_time(event),
            event_count: if self.event_count == usize::MAX {
                usize::MAX
            } else {
                (self.event_count + 1) as usize
            },
            ..self
        }
    }

    /// More than the timeout lies between the first read and the last one.
    pub open spec fn timed_out(self, timeout_ms: u64) -> bool {
        self.last_timestamp > self.first_timestamp && (self.last_timestamp - self.first_timestamp)
            / 1_000_000 > timeout_ms
    }

    /// The event that stands for all reads of the buffer: the first one with the text of all.
    pub open spec fn merged(self) -> EventModel {
        EventModel {
            timestamp: self.last_timestamp,
            data: match self.original.data {
                Json::Object(fields) => Json::Object(
                    assoc::set(
                        assoc::set(
                            assoc::set(
                                assoc::set(fields, "data"@, Json::Text(self.data)),
                                "len"@,
                                Json::Unsigned(vstd::utf8::encode_utf8(self.data).len() as u64),
                            ),
                            "merged_events"@,
                            Json::Unsigned(self.event_count as u64),
                        ),
                        "first_timestamp_ns"@,
                        Json::Unsigned(self.first_timestamp),
                    ),
                ),
                other => other,
            },
            ..self.original
        }
    }
}

impl MergerModel {
    /// The buffer of the event's thread once the event is in it.
    pub open spec fn filled(self, event: EventModel) -> BufferModel {
        let tid = read_tid(event);
        let buffer = if self.buffers.contains_key(tid) {
            self.buffers[tid]
        } else {
            BufferModel::opened_by(event)
        };
        buffer.with(event)
    }

    /// The event makes its buffer complete, or too old to wait any longer.
    pub open spec fn flushes(self, event: EventModel) -> bool {
        is_complete(self.filled(event).data) || self.filled(event).timed_out(self.timeout_ms)
    }

    /// The state after an event.
    pub open spec fn after(self, event: EventModel) -> MergerModel {
        let tid = read_tid(event);
        if !is_read(event) {
            self
        } else if self.flushes(event) {
            MergerModel { buffers: self.buffers.remove(tid), ..self }
        } else {
            MergerModel { buffers: self.buffers.insert(tid, self.filled(event)), ..self }
        }
    }

    /// What comes out for an event: any other event as it is, a read only once its buffer is
    /// flushed.
    pub open spec fn output(self, event: EventModel) -> Option<EventModel> {
        if !is_read(event) {
            Some(event)
        } else if self.flushes(event) {
            Some(self.filled(event).merged())
        } else {
            None
        }
    }
}

/// The reads of one thread that are held back.
struct SSLBuffer {
    accumulated_data: String,
    first_timestamp: u64,
    last_timestamp: u64,
    original_event: Event,
    event_count: usize,
}

impl View for SSLBuffer {
    type V = BufferModel;

    closed spec fn view(&self) -> BufferModel {
        BufferModel {
            data: self.accumulated_data@,
            first_timestamp: self.first_timestamp,
            last_timestamp: self.last_timestamp,
            original: self.original_event@,
            event_count: self.event_count,
        }
    }
}

/// Accumulates TLS reads of the same thread until a complete HTTP message is there, and gives one
/// merged event for it.
pub struct SSLMerger {
    buffers: HashMap<u64, SSLBuffer>,
    timeout_ms: u64,
}

impl View for SSLMerger {
    type V = MergerModel;

    closed spec fn view(&self) -> MergerModel {
        MergerModel {
            buffers: self.buffers@.map_values(|b: SSLBuffer| b@),
            timeout_ms: self.timeout_ms,
        }
    }
}

impl SSLMerger {
    /// A merger that waits five seconds for the rest of a message.
    pub fn new() -> (r: SSLMerger)
        ensures
            r@ == (MergerModel { buffers: Map::empty(), timeout_ms: 5000 }),
    {
        SSLMerger::with_timeout(5000)
    }

    /// A merger that waits so many milliseconds for the rest of a message.
    pub fn with_timeout(timeout_ms: u64) -> (r: SSLMerger)
        ensures
            r@ == (MergerModel { buffers: Map::empty(), timeout_ms }),
    {
        let r = SSLMerger { buffers: HashMap::new(), timeout_ms };
        assert(r@.buffers =~= Map::empty());
        r
    }

    /// Whether a text holds a complete HTTP message.
    pub fn is_complete_http_message(data: &str) -> (r: bool)
        ensures
            r == is_complete(data@),
    {
        let all: Vec<char> = text::chars(data);
        let s: &[char] = all.as_slice();
        let is_http: bool = text::begins(s, "HTTP/") || text::has(s, " HTTP/1.") || text::has(
            s,
            "GET ",
        ) || text::has(s, "POST ") || text::has(s, "PUT ") || text::has(s, "DELETE ");
        if !is_http {
            return false;
        }
        proof {
            reveal_strlit("\r\n\r\n");
            reveal_strlit("\r\n");
        }
        let header_end: usize = match text::position(s, "\r\n\r\n") {
            Some(end) => end,
            None => {
                return false;
            },
        };
        let total: usize = s.len();
        let headers: &[char] = slice_subrange(s, 0, header_end);
        let body: &[char] = slice_subrange(s, header_end + 4, total);
        assert(headers@ =~= s@.take(header_end as int));
        assert(body@ =~= s@.skip(header_end + 4));
        let headers_text: String = text::string(headers);
        let lower: Vec<char> = text::chars(text::to_lowercase(headers_text.as_str()).as_str());
        if text::has(lower.as_slice(), "transfer-encoding: chunked") {
            text::ends(body, "0\r\n\r\n") || text::has(body, "\r\n0\r\n\r\n")
        } else {
            let lines: Vec<&[char]> = text::pieces(headers, "\r\n");
            match header_length(&lines) {
                Some(content_length) => {
                    let body_text: String = text::string(body);
                    text::byte_len(body_text.as_str()) as u64 >= content_length
                },
                None => true,
            }
        }
    }

    /// The event that stands for all reads of a buffer.
    fn create_merged_event(buffer: SSLBuffer) -> (r: Event)
        ensures
            r@ == buffer@.merged(),
    {
        let len: u64 = text::byte_len(buffer.accumulated_data.as_str()) as u64;
        let original: Event = buffer.original_event;
        let data: JsonValue = match original.data {
            JsonValue::Object(fields) => {
                let mut fields: Vec<(String, JsonValue)> = fields;
                proof {
                    json::lemma_object_view(fields);
                }
                json::set_field(&mut fields, "data", JsonValue::Text(buffer.accumulated_data));
                json::set_field(&mut fields, "len", JsonValue::Unsigned(len));
                json::set_field(
                    &mut fields,
                    "merged_events",
                    JsonValue::Unsigned(buffer.event_count as u64),
                );
                json::set_field(
                    &mut fields,
                    "first_timestamp_ns",
                    JsonValue::Unsigned(buffer.first_timestamp),
                );
                proof {
                    json::lemma_object_view(fields);
                }
                JsonValue::Object(fields)
            },
            other => other,
        };
        Event {
            timestamp: buffer.last_timestamp,
            source: original.source,
            pid: original.pid,
            comm: original.comm,
            data,
        }
    }

    /// Takes the next event, and gives the event that comes out for it, where one does.
    pub fn process_event(&mut self, event: Event) -> (r: Option<Event>)
        ensures
            final(self)@ == old(self)@.after(event@),
            match r {
                Some(e) => old(self)@.output(event@) == Some(e@),
                None => old(self)@.output(event@) is None,
            },
    {
        let is_ssl_read: bool = text::same(event.source.as_str(), "ssl") && match event.data.get_str(
            "function",
        ) {
            Some(function) => text::same(function, "READ/RECV"),
            None => false,
        };
        if !is_ssl_read {
            return Some(event);
        }
        let tid: u64 = match event.data.get_u64("tid") {
            Some(n) => n,
            None => 0,
        };
        let timestamp_ns: u64 = match event.data.get_u64("timestamp_ns") {
            Some(n) => n,
            None => event.timestamp,
        };
        let ghost before = self@;
        let mut buffer: SSLBuffer = match self.buffers.remove(&tid) {
            Some(buffer) => buffer,
            None => SSLBuffer {
                accumulated_data: String::new(),
                first_timestamp: timestamp_ns,
                last_timestamp: timestamp_ns,
                original_event: event.clone(),
                event_count: 0,
            },
        };
        match event.data.get_str("data") {
            Some(data) => {
                text::push_str(&mut buffer.accumulated_data, data);
            },
            None => {
                assert(buffer@.data + Seq::<char>::empty() =~= buffer@.data);
            },
        }
        buffer.last_timestamp = timestamp_ns;
        buffer.event_count = buffer.event_count.saturating_add(1);
        assert(buffer@ == before.filled(event@));

        let complete: bool = SSLMerger::is_complete_http_message(buffer.accumulated_data.as_str());
        let waited_ms: u64 = if timestamp_ns > buffer.first_timestamp {
            (timestamp_ns - buffer.first_timestamp) / 1_000_000
        } else {
            0
        };
        if complete || waited_ms > self.timeout_ms {
            assert(self@.buffers =~= before.buffers.remove(tid));
            return Some(SSLMerger::create_merged_event(buffer));
        }
        let ghost filled = buffer@;
        self.buffers.insert(tid, buffer);
        assert(self@.buffers =~= before.buffers.insert(tid, filled));
        None
    }
}

/// What holds of every reachable state: a buffer was opened by a read of its own thread, and the
/// text in it is no complete message.
pub open spec fn waiting(s: MergerModel) -> bool {
    forall|tid: u64| #[trigger]
        s.buffers.contains_key(tid) ==> {
            &&& is_read(s.buffers[tid].original)
            &&& read_tid(s.buffers[tid].original) == tid
            &&& !is_complete(s.buffers[tid].data)
            &&& !s.buffers[tid].timed_out(s.timeout_ms)
        }
}

/// Only incomplete messages are held back, and none longer than the timeout: every event keeps it
/// so, and it is so at the start.
pub proof fn law_only_incomplete_messages_wait(s: MergerModel, event: EventModel, timeout_ms: u64)
    ensures
        waiting(MergerModel { buffers: Map::empty(), timeout_ms }),
        waiting(s) ==> waiting(s.after(event)),
{
}

proof fn lemma_merged(b: BufferModel)
    requires
        is_read(b.original),
    ensures
        is_read(b.merged()),
        read_tid(b.merged()) == read_tid(b.original),
        read_text(b.merged()) == b.data,
{
    reveal_strlit("data");
    reveal_strlit("len");
    reveal_strlit("merged_events");
    reveal_strlit("first_timestamp_ns");
    reveal_strlit("function");
    reveal_strlit("tid");
    let len = Json::Unsigned(vstd::utf8::encode_utf8(b.data).len() as u64);
    let f0 = b.original.data->Object_0;
    let f1 = assoc::set(f0, "data"@, Json::Text(b.data));
    let f2 = assoc::set(f1, "len"@, len);
    let f3 = assoc::set(f2, "merged_events"@, Json::Unsigned(b.event_count as u64));
    assoc::lemma_set(f0, "data"@, Json::Text(b.data));
    assoc::lemma_set(f1, "len"@, len);
    assoc::lemma_set(f2, "merged_events"@, Json::Unsigned(b.event_count as u64));
    assoc::lemma_set(f3, "first_timestamp_ns"@, Json::Unsigned(b.first_timestamp));
    assert("data"@.len() == 4 && "len"@.len() == 3 && "tid"@.len() == 3);
    assert("len"@[0] != "tid"@[0]);
    assert("merged_events"@.len() == 13 && "first_timestamp_ns"@.len() == 18);
    assert("function"@.len() == 8);
}

/// The state after a sequence of events.
pub open spec fn run(s: MergerModel, events: Seq<EventModel>) -> MergerModel
    decreases events.len(),
{
    if events.len() == 0 {
        s
    } else {
        run(s, events.drop_last()).after(events.last())
    }
}

/// What comes out for a sequence of events.
pub open spec fn outputs(s: MergerModel, events: Seq<EventModel>) -> Seq<EventModel>
    decreases events.len(),
{
    if events.len() == 0 {
        Seq::empty()
    } else {
        match run(s, events.drop_last()).output(events.last()) {
            Some(e) => outputs(s, events.drop_last()).push(e),
            None => outputs(s, events.drop_last()),
        }
    }
}

/// The text that the reads of a thread hold, one after the other.
pub open spec fn text_read(events: Seq<EventModel>, tid: u64) -> Seq<char>
    decreases events.len(),
{
    if events.len() == 0 {
        Seq::empty()
    } else if is_read(events.last()) && read_tid(events.last()) == tid {
        text_read(events.drop_last(), tid) + read_text(events.last())
    } else {
        text_read(events.drop_last(), tid)
    }
}

/// The text of a thread that is held back.
pub open spec fn text_waiting(s: MergerModel, tid: u64) -> Seq<char> {
    if s.buffers.contains_key(tid) {
        s.buffers[tid].data
    } else {
        Seq::empty()
    }
}

/// No text is lost, doubled or reordered: what the reads of a thread hold is what the merged
/// events of that thread hold, followed by what is still held back.
pub proof fn law_text_is_kept(s: MergerModel, events: Seq<EventModel>, tid: u64)
    requires
        waiting(s),
    ensures
        text_waiting(s, tid) + text_read(events, tid) == text_read(outputs(s, events), tid)
            + text_waiting(run(s, events), tid),
        waiting(run(s, events)),
    decreases events.len(),
{
    if events.len() == 0 {
        assert(text_waiting(s, tid) + text_read(events, tid) =~= text_read(outputs(s, events), tid)
            + text_waiting(run(s, events), tid));
    } else {
        let before = events.drop_last();
        let e = events.last();
        law_text_is_kept(s, before, tid);
        let t = run(s, before);
        let out = outputs(s, before);
        law_only_incomplete_messages_wait(t, e, 0);
        if is_read(e) {
            lemma_merged(t.filled(e));
        }
        match t.output(e) {
            Some(o) => {
                assert(out.push(o).drop_last() =~= out);
            },
            None => {},
        }
        let read = text_read(before, tid);
        let given = text_read(out, tid);
        if is_read(e) && read_tid(e) == tid {
            let x = read_text(e);
            assert(t.filled(e).data =~= text_waiting(t, tid) + x);
            assert(text_waiting(s, tid) + (read + x) =~= (text_waiting(s, tid) + read) + x);
            assert((given + text_waiting(t, tid)) + x =~= given + (text_waiting(t, tid) + x));
            if t.flushes(e) {
                assert(text_read(outputs(s, events), tid) == given + (text_waiting(t, tid) + x));
                assert(text_waiting(run(s, events), tid) =~= Seq::empty());
            } else {
                assert(text_read(outputs(s, events), tid) == given);
                assert(text_waiting(run(s, events), tid) == text_waiting(t, tid) + x);
            }
        } else {
            assert(text_read(outputs(s, events), tid) == given);
            assert(text_waiting(run(s, events), tid) == text_waiting(t, tid));
        }
        assert(text_waiting(s, tid) + text_read(events, tid) =~= text_read(outputs(s, events), tid)
            + text_waiting(run(s, events), tid));
    }
}

} // verus!
