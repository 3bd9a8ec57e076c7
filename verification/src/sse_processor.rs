//! The analyzer that puts server-sent events together to whole responses.

use crate::assoc;
use crate::capture_metadata::{
    CaptureMetadata, CaptureMetadataAccumulator, CaptureState, CaptureSummary,
};
use crate::event::{Event, EventModel};
use crate::headers;
use crate::json;
use crate::json::{Json, JsonValue};
use crate::sse_content;
use crate::sse_content::{ContentModel, SSEContent};
use crate::sse_event;
use crate::sse_event::{SSEEvent, SseEventModel};
use crate::sse_summary;
use crate::text;
use vstd::prelude::*;

verus! {

/// How many streams are kept.
pub const MAX_BUFFERS: usize = 1024;

/// What the event for a whole response says.
pub struct SseProcessorEventModel {
    pub capture_metadata: CaptureSummary,
    pub connection_id: Seq<char>,
    pub message_id: Option<Seq<char>>,
    pub start_time: u64,
    pub end_time: u64,
    pub duration_ns: u64,
    pub original_source: Seq<char>,
    pub host: Option<Seq<char>>,
    pub method: Option<Seq<char>>,
    pub path: Option<Seq<char>>,
    pub status_code: Option<u16>,
    pub function: Seq<char>,
    pub tid: u64,
    pub json_content: Seq<char>,
    pub text_content: Seq<char>,
    pub total_size: usize,
    pub event_count: nat,
    pub has_message_start: bool,
    pub sse_events: Seq<Json>,
}

/// The event for a whole response.
#[derive(Debug, PartialEq, Eq)]
pub struct SSEProcessorEvent {
    pub capture_metadata: CaptureMetadata,
    pub connection_id: String,
    pub message_id: Option<String>,
    pub start_time: u64,
    pub end_time: u64,
    pub duration_ns: u64,
    pub original_source: String,
    pub host: Option<String>,
    pub method: Option<String>,
    pub path: Option<String>,
    pub status_code: Option<u16>,
    pub function: String,
    pub tid: u64,
    pub json_content: String,
    pub text_content: String,
    pub total_size: usize,
    pub event_count: usize,
    pub has_message_start: bool,
    pub sse_events: Vec<JsonValue>,
}

impl View for SSEProcessorEvent {
    type V = SseProcessorEventModel;

    open spec fn view(&self) -> SseProcessorEventModel {
        SseProcessorEventModel {
            capture_metadata: self.capture_metadata@,
            connection_id: self.connection_id@,
            message_id: text::optional_view(self.message_id),
            start_time: self.start_time,
            end_time: self.end_time,
            duration_ns: self.duration_ns,
            original_source: self.original_source@,
            host: text::optional_view(self.host),
            method: text::optional_view(self.method),
            path: text::optional_view(self.path),
            status_code: self.status_code,
            function: self.function@,
            tid: self.tid,
            json_content: self.json_content@,
            text_content: self.text_content@,
            total_size: self.total_size,
            event_count: self.event_count as nat,
            has_message_start: self.has_message_start,
            sse_events: json::items_view(self.sse_events@),
        }
    }
}

/// What is known of a stream.
pub struct AccumulatorModel {
    pub capture: CaptureState,
    pub content: ContentModel,
    pub last_update: u64,
    pub start_time: u64,
    pub end_time: u64,
}

impl AccumulatorModel {
    /// A stream that begins at this time.
    pub open spec fn begun(time: u64) -> AccumulatorModel {
        AccumulatorModel {
            capture: CaptureState::empty(),
            content: ContentModel::empty(),
            last_update: time,
            start_time: time,
            end_time: time,
        }
    }

    /// The stream with more events, which came in with a captured event.
    pub open spec fn with(
        self,
        event: EventModel,
        events: Seq<SseEventModel>,
    ) -> AccumulatorModel {
        AccumulatorModel {
            capture: self.capture.observe(event.data),
            content: self.content.adding_all(events),
            last_update: event.timestamp,
            end_time: event.timestamp,
            ..self
        }
    }
}

/// What comes out for an event: the event itself, nothing, or the event for a whole response.
pub enum OutputModel {
    Pass,
    Held,
    Merged(SseProcessorEventModel),
}

/// What comes out for an event: the event itself, nothing, or the event for a whole response.
#[derive(Debug)]
pub enum SSEOutput {
    Pass,
    Held,
    Merged(SSEProcessorEvent),
}

impl View for SSEOutput {
    type V = OutputModel;

    open spec fn view(&self) -> OutputModel {
        match self {
            SSEOutput::Pass => OutputModel::Pass,
            SSEOutput::Held => OutputModel::Held,
            SSEOutput::Merged(e) => OutputModel::Merged(e@),
        }
    }
}

/// The field names the host, or the authority that stands for it.
pub open spec fn names_host(key: Seq<char>) -> bool {
    text::eq_ignore_ascii_case(key, "host"@) || key == ":authority"@
}

/// The first field that names the host with a text, from position `i` on.
pub open spec fn host_from(fields: Seq<(Seq<char>, Json)>, i: int) -> Option<Seq<char>>
    decreases fields.len() - i,
{
    if i < 0 || i >= fields.len() {
        None
    } else if names_host(fields[i].0) && fields[i].1.as_text() is Some {
        fields[i].1.as_text()
    } else {
        host_from(fields, i + 1)
    }
}

/// The host that an event names, itself or in its header fields.
pub open spec fn host_of(data: Json) -> Option<Seq<char>> {
    match data.text_field("host"@) {
        Some(host) => Some(host),
        None => match data.fields_field("headers"@) {
            Some(fields) => host_from(fields, 0),
            None => None,
        },
    }
}

/// The field says that server-sent events follow.
pub open spec fn announces_sse(key: Seq<char>, value: Json) -> bool {
    text::eq_ignore_ascii_case(key, "content-type"@) && match value.as_text() {
        Some(s) => text::contains(text::ascii_lowercase(s), "text/event-stream"@),
        None => false,
    }
}

/// The header fields of an HTTP event say that server-sent events follow.
pub open spec fn content_type_is_sse(data: Json) -> bool {
    match data.fields_field("headers"@) {
        Some(fields) => exists|i: int|
            0 <= i < fields.len() && announces_sse((#[trigger] fields[i]).0, fields[i].1),
        None => false,
    }
}

/// The text of an event that may hold server-sent events, and whether it may be a mere piece of a
/// response. That is so for captured text, but not for the body of an HTTP response.
pub open spec fn payload_of(e: EventModel) -> Option<(Seq<char>, bool)> {
    if e.source == "ssl"@ {
        match e.data.text_field("data"@) {
            Some(s) => Some((s, true)),
            None => None,
        }
    } else if e.source == "http_parser"@ && e.data.text_field("message_type"@) == Some(
        "response"@,
    ) {
        match e.data.text_field("body"@) {
            Some(body) => if content_type_is_sse(e.data) || sse_event::looks_like_sse(body) {
                Some((body, false))
            } else {
                None
            },
            None => None,
        }
    } else {
        None
    }
}

/// The server-sent events in a text; a piece of a response may hold the usage alone. None where
/// there are none.
pub open spec fn events_in_payload(data: Seq<char>, fragment: bool) -> Option<
    Seq<SseEventModel>,
> {
    let events = if sse_event::looks_like_sse(data) {
        sse_event::events_in(data)
    } else if fragment {
        match sse_event::usage_fragment(data) {
            Some(e) => seq![e],
            None => Seq::empty(),
        }
    } else {
        Seq::empty()
    };
    if events.len() > 0 {
        Some(events)
    } else {
        None
    }
}

/// The event only keeps a connection alive.
pub open spec fn is_idle(e: SseEventModel) -> bool {
    e.event == Some("message_delta"@) || e.event == Some("ping"@)
}

pub open spec fn all_idle(events: Seq<SseEventModel>) -> bool {
    forall|i: int| 0 <= i < events.len() ==> is_idle(#[trigger] events[i])
}

pub open spec fn number_or_zero(n: Option<u64>) -> u64 {
    match n {
        Some(x) => x,
        None => 0,
    }
}

/// What the ids of all streams of a thread begin with.
pub open spec fn thread_prefix(data: Json) -> Seq<char> {
    text::decimal(number_or_zero(data.unsigned_field("pid"@)) as nat) + ":"@ + text::decimal(
        number_or_zero(data.unsigned_field("tid"@)) as nat,
    ) + ":"@
}

/// The id of the stream that events belong to: by the thread and the message, or where no message
/// is named by the thread and ten minutes of time.
pub open spec fn connection_id_of(e: EventModel, events: Seq<SseEventModel>) -> Seq<char> {
    thread_prefix(e.data) + match sse_content::message_id_of(events) {
        Some(id) => id,
        None => text::decimal(e.timestamp as nat / 600_000_000_000),
    }
}

/// The stream was updated not longer than the timeout before `now`.
pub open spec fn is_alive(a: AccumulatorModel, now: u64, timeout_ms: u64) -> bool {
    now <= a.last_update || now - a.last_update <= timeout_ms
}

/// The streams that are alive.
pub open spec fn alive(
    buffers: Seq<(Seq<char>, AccumulatorModel)>,
    now: u64,
    timeout_ms: u64,
) -> Seq<(Seq<char>, AccumulatorModel)>
    decreases buffers.len(),
{
    if buffers.len() == 0 {
        Seq::empty()
    } else {
        let before = alive(buffers.drop_last(), now, timeout_ms);
        if is_alive(buffers.last().1, now, timeout_ms) {
            before.push(buffers.last())
        } else {
            before
        }
    }
}

/// The first of the streams that were updated least recently.
pub open spec fn oldest(buffers: Seq<(Seq<char>, AccumulatorModel)>) -> int
    decreases buffers.len(),
{
    if buffers.len() <= 1 {
        0
    } else {
        let before = oldest(buffers.drop_last());
        if buffers.last().1.last_update < buffers[before].1.last_update {
            buffers.len() - 1
        } else {
            before
        }
    }
}

/// The streams without the oldest ones, of which so many go that `max` are left.
pub open spec fn youngest(
    buffers: Seq<(Seq<char>, AccumulatorModel)>,
    max: nat,
) -> Seq<(Seq<char>, AccumulatorModel)>
    decreases buffers.len(),
{
    if buffers.len() <= max || !(0 <= oldest(buffers) < buffers.len()) {
        buffers
    } else {
        youngest(buffers.remove(oldest(buffers)), max)
    }
}

/// The streams without the one of this id.
pub open spec fn without(
    buffers: Seq<(Seq<char>, AccumulatorModel)>,
    id: Seq<char>,
) -> Seq<(Seq<char>, AccumulatorModel)> {
    match assoc::index_of(assoc::keys(buffers), id) {
        Some(i) => buffers.remove(i),
        None => buffers,
    }
}

/// The stream is one of this thread whose message has not stopped.
pub open spec fn is_open(entry: (Seq<char>, AccumulatorModel), prefix: Seq<char>) -> bool {
    text::starts_with(entry.0, prefix) && !sse_summary::has_named(
        entry.1.content.events,
        "message_stop"@,
    )
}

/// The first stream of this thread, from position `i` on, whose message has not stopped.
pub open spec fn open_from(
    buffers: Seq<(Seq<char>, AccumulatorModel)>,
    prefix: Seq<char>,
    i: int,
) -> Option<int>
    decreases buffers.len() - i,
{
    if i < 0 || i >= buffers.len() {
        None
    } else if is_open(buffers[i], prefix) {
        Some(i)
    } else {
        open_from(buffers, prefix, i + 1)
    }
}

/// The streams that are kept, by their ids, the one updated last at the end.
pub struct SseModel {
    pub buffers: Seq<(Seq<char>, AccumulatorModel)>,
    pub timeout_ms: u64,
    pub max_buffers: usize,
}

/// The event for a whole response.
pub open spec fn merged_event(
    id: Seq<char>,
    a: AccumulatorModel,
    e: EventModel,
) -> SseProcessorEventModel {
    let json_content = sse_summary::json_content(a.content);
    SseProcessorEventModel {
        capture_metadata: a.capture.summary(),
        connection_id: id,
        message_id: a.content.message_id,
        start_time: a.start_time,
        end_time: a.end_time,
        duration_ns: if a.end_time > a.start_time {
            (a.end_time - a.start_time) as u64
        } else {
            0
        },
        original_source: e.source,
        host: host_of(e.data),
        method: e.data.text_field("method"@),
        path: e.data.text_field("path"@),
        status_code: match e.data.unsigned_field("status_code"@) {
            Some(n) => Some((n % 0x1_0000) as u16),
            None => None,
        },
        function: match e.data.text_field("function"@) {
            Some(s) => s,
            None => "unknown"@,
        },
        tid: number_or_zero(e.data.unsigned_field("tid"@)),
        json_content,
        text_content: a.content.text,
        total_size: headers::bounded(
            vstd::utf8::encode_utf8(json_content).len() + vstd::utf8::encode_utf8(
                a.content.text,
            ).len(),
        ),
        event_count: a.content.events.len(),
        has_message_start: a.content.has_message_start,
        sse_events: a.content.events.map_values(
            |x: SseEventModel| sse_summary::event_json(x),
        ),
    }
}

impl SseModel {
    /// Nothing captured yet.
    pub open spec fn start(timeout_ms: u64) -> SseModel {
        SseModel { buffers: Seq::empty(), timeout_ms, max_buffers: MAX_BUFFERS }
    }

    /// A stream of this id is kept.
    pub open spec fn knows(self, id: Seq<char>) -> bool {
        assoc::index_of(assoc::keys(self.buffers), id) is Some
    }

    /// Events that only keep a connection alive say nothing where no stream is kept for them.
    pub open spec fn ignores(self, e: EventModel, events: Seq<SseEventModel>) -> bool {
        all_idle(events) && !self.knows(connection_id_of(e, events))
    }

    /// The streams that are left once the old ones are forgotten.
    pub open spec fn swept(self, now: u64) -> Seq<(Seq<char>, AccumulatorModel)> {
        youngest(alive(self.buffers, now, self.timeout_ms), self.max_buffers as nat)
    }

    /// The id of the stream that the events go to. Events that name no message go on with an open
    /// stream of their thread.
    pub open spec fn target(self, e: EventModel, events: Seq<SseEventModel>) -> Seq<char> {
        let kept = self.swept(e.timestamp);
        match sse_content::message_id_of(events) {
            Some(_) => connection_id_of(e, events),
            None => match open_from(kept, thread_prefix(e.data), 0) {
                Some(i) => kept[i].0,
                None => connection_id_of(e, events),
            },
        }
    }

    /// The stream that the events go to, with the events in it.
    pub open spec fn filled(self, e: EventModel, events: Seq<SseEventModel>) -> AccumulatorModel {
        let a = match assoc::lookup(self.swept(e.timestamp), self.target(e, events)) {
            Some(a) => a,
            None => AccumulatorModel::begun(e.timestamp),
        };
        a.with(e, events)
    }

    /// The events end their stream. The body of an HTTP response ends with the reason that a
    /// choice gives for its end.
    pub open spec fn ends(
        self,
        e: EventModel,
        events: Seq<SseEventModel>,
        fragment: bool,
    ) -> bool {
        sse_summary::is_complete(self.filled(e, events).content) || (!fragment && exists|i: int|
            0 <= i < events.len() && sse_summary::event_finishes(#[trigger] events[i]))
    }

    /// The state after an event with these server-sent events.
    pub open spec fn after_events(
        self,
        e: EventModel,
        events: Seq<SseEventModel>,
        fragment: bool,
    ) -> SseModel {
        let id = self.target(e, events);
        let others = without(self.swept(e.timestamp), id);
        if self.ignores(e, events) {
            self
        } else if self.ends(e, events, fragment) {
            SseModel { buffers: others, ..self }
        } else {
            SseModel { buffers: others.push((id, self.filled(e, events))), ..self }
        }
    }

    /// What comes out for an event with these server-sent events.
    pub open spec fn output_of_events(
        self,
        e: EventModel,
        events: Seq<SseEventModel>,
        fragment: bool,
    ) -> OutputModel {
        if !self.ignores(e, events) && self.ends(e, events, fragment)
            && sse_summary::is_meaningful(self.filled(e, events).content) {
            OutputModel::Merged(
                merged_event(self.target(e, events), self.filled(e, events), e),
            )
        } else {
            OutputModel::Held
        }
    }

    /// The state after an event.
    pub open spec fn after(self, e: EventModel) -> SseModel {
        match payload_of(e) {
            Some((data, fragment)) => match events_in_payload(data, fragment) {
                Some(events) => self.after_events(e, events, fragment),
                None => self,
            },
            None => self,
        }
    }

    /// What comes out for an event: the event itself where it holds no server-sent events.
    pub open spec fn output(self, e: EventModel) -> OutputModel {
        match payload_of(e) {
            Some((data, fragment)) => match events_in_payload(data, fragment) {
                Some(events) => self.output_of_events(e, events, fragment),
                None => OutputModel::Pass,
            },
            None => OutputModel::Pass,
        }
    }
}

struct SSEAccumulator {
    capture_metadata: CaptureMetadataAccumulator,
    content: SSEContent,
    last_update: u64,
    start_time: u64,
    end_time: u64,
}

impl View for SSEAccumulator {
    type V = AccumulatorModel;

    closed spec fn view(&self) -> AccumulatorModel {
        AccumulatorModel {
            capture: self.capture_metadata@,
            content: self.content@,
            last_update: self.last_update,
            start_time: self.start_time,
            end_time: self.end_time,
        }
    }
}

spec fn buffers_view(v: Seq<(String, SSEAccumulator)>) -> Seq<(Seq<char>, AccumulatorModel)> {
    Seq::new(v.len(), |i: int| (v[i].0@, v[i].1@))
}

/// Puts server-sent events together to whole responses.
pub struct SSEProcessor {
    sse_buffers: Vec<(String, SSEAccumulator)>,
    timeout_ms: u64,
    max_buffers: usize,
}

impl View for SSEProcessor {
    type V = SseModel;

    closed spec fn view(&self) -> SseModel {
        SseModel {
            buffers: buffers_view(self.sse_buffers@),
            timeout_ms: self.timeout_ms,
            max_buffers: self.max_buffers,
        }
    }
}

impl Default for SSEProcessor {
    fn default() -> (r: SSEProcessor)
        ensures
            r@ == SseModel::start(30_000),
    {
        SSEProcessor::new_with_timeout(30_000)
    }
}

fn copied(s: Option<&str>) -> (r: Option<String>)
    ensures
        text::optional_view(r) == sse_content::str_view(s),
{
    match s {
        Some(t) => Some(text::owned(t)),
        None => None,
    }
}

fn or_zero(n: Option<u64>) -> (r: u64)
    ensures
        r == number_or_zero(n),
{
    match n {
        Some(x) => x,
        None => 0,
    }
}

impl SSEProcessor {
    pub fn new() -> (r: SSEProcessor)
        ensures
            r@ == SseModel::start(30_000),
    {
        SSEProcessor::default()
    }

    pub fn new_with_timeout(timeout_ms: u64) -> (r: SSEProcessor)
        ensures
            r@ == SseModel::start(timeout_ms),
    {
        let r = SSEProcessor { sse_buffers: Vec::new(), timeout_ms, max_buffers: MAX_BUFFERS };
        assert(r@.buffers =~= Seq::empty());
        r
    }

    /// The host that an event names.
    pub fn event_host(event: &Event) -> (r: Option<String>)
        ensures
            text::optional_view(r) == host_of(event@.data),
    {
        match event.data.get_str("host") {
            Some(host) => {
                return Some(text::owned(host));
            },
            None => {},
        }
        let fields: &Vec<(String, JsonValue)> = match event.data.get_object("headers") {
            Some(fields) => fields,
            None => {
                return None;
            },
        };
        let ghost all = json::fields_view(fields@);
        let mut i: usize = 0;
        while i < fields.len()
            invariant
                i <= fields@.len(),
                all == json::fields_view(fields@),
                host_of(event@.data) == host_from(all, i as int),
            decreases fields@.len() - i,
        {
            let key: &str = fields[i].0.as_str();
            if text::same_ignoring_case(key, "host") || text::same(key, ":authority") {
                match fields[i].1.as_str() {
                    Some(host) => {
                        return Some(text::owned(host));
                    },
                    None => {},
                }
            }
            i += 1;
        }
        None
    }

    /// Whether the header fields of an HTTP event say that server-sent events follow.
    pub fn http_content_type_is_sse(data: &JsonValue) -> (r: bool)
        ensures
            r == content_type_is_sse(data@),
    {
        let fields: &Vec<(String, JsonValue)> = match data.get_object("headers") {
            Some(fields) => fields,
            None => {
                return false;
            },
        };
        let ghost all = json::fields_view(fields@);
        let mut i: usize = 0;
        while i < fields.len()
            invariant
                i <= fields@.len(),
                all == json::fields_view(fields@),
                data@.fields_field("headers"@) == Some(all),
                forall|k: int| 0 <= k < i ==> !announces_sse((#[trigger] all[k]).0, all[k].1),
            decreases fields@.len() - i,
        {
            let announces: bool = text::same_ignoring_case(fields[i].0.as_str(), "content-type")
                && match fields[i].1.as_str() {
                Some(s) => {
                    let value: Vec<char> = text::chars(s);
                    let lower: Vec<char> = text::lower(value.as_slice());
                    text::has(lower.as_slice(), "text/event-stream")
                },
                None => false,
            };
            if announces {
                assert(content_type_is_sse(data@)) by {
                    let fields = data@.fields_field("headers"@)->0;
                    assert(announces_sse(fields[i as int].0, fields[i as int].1));
                }
                return true;
            }
            i += 1;
        }
        false
    }

    /// The text of an event that may hold server-sent events, and whether it may be a mere piece
    /// of a response.
    pub fn sse_payload(event: &Event) -> (r: Option<(&str, bool)>)
        ensures
            match r {
                Some((data, fragment)) => payload_of(event@) == Some((data@, fragment)),
                None => payload_of(event@) is None,
            },
    {
        if text::same(event.source.as_str(), "ssl") {
            return match event.data.get_str("data") {
                Some(data) => Some((data, true)),
                None => None,
            };
        }
        let is_response: bool = text::same(event.source.as_str(), "http_parser")
            && match event.data.get_str("message_type") {
            Some(kind) => text::same(kind, "response"),
            None => false,
        };
        if !is_response {
            return None;
        }
        match event.data.get_str("body") {
            Some(body) => {
                if SSEProcessor::http_content_type_is_sse(&event.data) || SSEProcessor::is_sse_data(
                    body,
                ) {
                    Some((body, false))
                } else {
                    None
                }
            },
            None => None,
        }
    }

    /// The server-sent events in a text.
    fn payload_events(data: &str, fragment: bool) -> (r: Option<Vec<SSEEvent>>)
        ensures
            match r {
                Some(v) => events_in_payload(data@, fragment) == Some(sse_event::events_view(v@)),
                None => events_in_payload(data@, fragment) is None,
            },
    {
        let mut events: Vec<SSEEvent> = Vec::new();
        assert(sse_event::events_view(events@) =~= Seq::empty());
        if SSEProcessor::is_sse_data(data) {
            events = SSEProcessor::parse_sse_events(data);
        } else if fragment {
            match SSEProcessor::parse_usage_metadata_fragment(data) {
                Some(event) => {
                    events.push(event);
                    assert(sse_event::events_view(events@) =~= seq![event@]);
                },
                None => {},
            }
        }
        if events.len() > 0 {
            Some(events)
        } else {
            None
        }
    }

    fn prefix_of(data: &JsonValue) -> (r: String)
        ensures
            r@ == thread_prefix(data@),
    {
        let mut out: String = text::digits(or_zero(data.get_u64("pid")));
        text::push_str(&mut out, ":");
        let tid: String = text::digits(or_zero(data.get_u64("tid")));
        text::push_str(&mut out, tid.as_str());
        text::push_str(&mut out, ":");
        out
    }

    /// The id of the stream that events belong to.
    pub fn generate_connection_id(event: &Event, events: &[SSEEvent]) -> (r: String)
        ensures
            r@ == connection_id_of(event@, sse_event::events_view(events@)),
    {
        let mut out: String = SSEProcessor::prefix_of(&event.data);
        match sse_content::extract_message_id(events) {
            Some(id) => {
                text::push_str(&mut out, id.as_str());
            },
            None => {
                let window: String = text::digits(event.timestamp / 600_000_000_000);
                text::push_str(&mut out, window.as_str());
            },
        }
        out
    }
}

/// Whether all events only keep a connection alive.
fn are_idle(events: &Vec<SSEEvent>) -> (r: bool)
    ensures
        r == all_idle(sse_event::events_view(events@)),
{
    let ghost all = sse_event::events_view(events@);
    let mut i: usize = 0;
    while i < events.len()
        invariant
            i <= events@.len(),
            all == sse_event::events_view(events@),
            forall|k: int| 0 <= k < i ==> is_idle(#[trigger] all[k]),
        decreases events@.len() - i,
    {
        if !sse_content::is_named(&events[i], "message_delta") && !sse_content::is_named(
            &events[i],
            "ping",
        ) {
            assert(!is_idle(all[i as int]));
            return false;
        }
        i += 1;
    }
    true
}

/// Whether some event says that a choice ended.
fn some_finish(events: &Vec<SSEEvent>) -> (r: bool)
    ensures
        r == exists|i: int|
            0 <= i < events@.len() && sse_summary::event_finishes(
                #[trigger] sse_event::events_view(events@)[i],
            ),
{
    let ghost all = sse_event::events_view(events@);
    let mut i: usize = 0;
    while i < events.len()
        invariant
            i <= events@.len(),
            all == sse_event::events_view(events@),
            forall|k: int| 0 <= k < i ==> !sse_summary::event_finishes(#[trigger] all[k]),
        decreases events@.len() - i,
    {
        if sse_summary::sse_event_has_terminal_finish(&events[i]) {
            assert(sse_summary::event_finishes(all[i as int]));
            return true;
        }
        i += 1;
    }
    false
}

proof fn lemma_removed(v: Seq<(String, SSEAccumulator)>, i: int)
    requires
        0 <= i < v.len(),
    ensures
        buffers_view(v.remove(i)) == buffers_view(v).remove(i),
{
    assert(buffers_view(v.remove(i)) =~= buffers_view(v).remove(i));
}

impl SSEProcessor {
    /// Forgets the streams that were not updated for longer than the timeout.
    fn forget_stale(&mut self, now: u64)
        ensures
            final(self)@ == (SseModel {
                buffers: alive(old(self)@.buffers, now, old(self)@.timeout_ms),
                ..old(self)@
            }),
    {
        let ghost before = self@;
        let timeout_ms: u64 = self.timeout_ms;
        let mut i: usize = self.sse_buffers.len();
        proof {
            assert(self@.buffers.take(i as int) =~= self@.buffers);
            assert(alive(self@.buffers, now, timeout_ms) + self@.buffers.skip(i as int) =~= alive(
                self@.buffers,
                now,
                timeout_ms,
            ));
        }
        while i > 0
            invariant
                i <= self.sse_buffers@.len(),
                timeout_ms == before.timeout_ms,
                self@ == (SseModel { buffers: self@.buffers, ..before }),
                alive(self@.buffers.take(i as int), now, timeout_ms) + self@.buffers.skip(i as int)
                    == alive(before.buffers, now, timeout_ms),
            decreases i,
        {
            i -= 1;
            let ghost current = self@.buffers;
            proof {
                assert(current.take(i + 1).drop_last() =~= current.take(i as int));
                assert(current.take(i + 1).last() == current[i as int]);
            }
            let last_update: u64 = self.sse_buffers[i].1.last_update;
            if now > last_update && now - last_update > timeout_ms {
                proof {
                    lemma_removed(self.sse_buffers@, i as int);
                }
                let _ = self.sse_buffers.remove(i);
                proof {
                    assert(self@.buffers.take(i as int) =~= current.take(i as int));
                    assert(self@.buffers.skip(i as int) =~= current.skip(i + 1));
                }
            } else {
                proof {
                    let rest = current.skip(i + 1);
                    assert(current.skip(i as int) =~= seq![current[i as int]] + rest);
                    let a = alive(current.take(i as int), now, timeout_ms);
                    assert(a.push(current[i as int]) + rest =~= a + current.skip(i as int));
                }
            }
        }
        proof {
            assert(self@.buffers.take(0) =~= Seq::empty());
            assert(self@.buffers.skip(0) =~= self@.buffers);
            assert(alive(self@.buffers.take(0), now, timeout_ms) + self@.buffers.skip(0)
                =~= self@.buffers);
        }
    }

    fn find_oldest(&self) -> (r: usize)
        requires
            self@.buffers.len() > 0,
        ensures
            r == oldest(self@.buffers),
            r < self@.buffers.len(),
    {
        let mut best: usize = 0;
        let mut i: usize = 1;
        let ghost all = self@.buffers;
        while i < self.sse_buffers.len()
            invariant
                1 <= i <= self.sse_buffers@.len(),
                all == self@.buffers,
                best < i,
                best == oldest(all.take(i as int)),
            decreases self.sse_buffers@.len() - i,
        {
            proof {
                assert(all.take(i + 1).drop_last() =~= all.take(i as int));
                assert(all.take(i + 1).last() == all[i as int]);
                assert(all.take(i + 1)[best as int] == all[best as int]);
            }
            if self.sse_buffers[i].1.last_update < self.sse_buffers[best].1.last_update {
                best = i;
            }
            i += 1;
        }
        assert(all.take(i as int) =~= all);
        best
    }

    /// Forgets the oldest streams until there are not too many.
    fn evict_over_capacity(&mut self)
        ensures
            final(self)@ == (SseModel {
                buffers: youngest(old(self)@.buffers, old(self)@.max_buffers as nat),
                ..old(self)@
            }),
    {
        let ghost before = self@;
        while self.sse_buffers.len() > self.max_buffers
            invariant
                self@ == (SseModel { buffers: self@.buffers, ..before }),
                youngest(self@.buffers, before.max_buffers as nat) == youngest(
                    before.buffers,
                    before.max_buffers as nat,
                ),
            decreases self.sse_buffers@.len(),
        {
            let index: usize = self.find_oldest();
            proof {
                lemma_removed(self.sse_buffers@, index as int);
            }
            let _ = self.sse_buffers.remove(index);
        }
    }

    /// The id of the first stream of a thread whose message has not stopped.
    fn find_open(&self, prefix: &str) -> (r: Option<String>)
        ensures
            match r {
                Some(id) => open_from(self@.buffers, prefix@, 0) is Some && id@
                    == self@.buffers[open_from(self@.buffers, prefix@, 0)->0].0,
                None => open_from(self@.buffers, prefix@, 0) is None,
            },
    {
        let mut i: usize = 0;
        while i < self.sse_buffers.len()
            invariant
                i <= self.sse_buffers@.len(),
                open_from(self@.buffers, prefix@, 0) == open_from(
                    self@.buffers,
                    prefix@,
                    i as int,
                ),
            decreases self.sse_buffers@.len() - i,
        {
            let id: Vec<char> = text::chars(self.sse_buffers[i].0.as_str());
            if text::begins(id.as_slice(), prefix)
                && !self.sse_buffers[i].1.content.has_event_named("message_stop") {
                return Some(self.sse_buffers[i].0.clone());
            }
            i += 1;
        }
        None
    }

    /// Takes the stream of an id out.
    fn take_buffer(&mut self, id: &str) -> (r: Option<SSEAccumulator>)
        ensures
            final(self)@ == (SseModel { buffers: without(old(self)@.buffers, id@), ..old(self)@ }),
            match r {
                Some(a) => assoc::lookup(old(self)@.buffers, id@) == Some(a@),
                None => assoc::lookup(old(self)@.buffers, id@) is None,
            },
    {
        proof {
            assert(assoc::names(self.sse_buffers@) =~= assoc::keys(self@.buffers));
        }
        match assoc::position(&self.sse_buffers, id) {
            Some(i) => {
                proof {
                    lemma_removed(self.sse_buffers@, i as int);
                }
                let (_, accumulator) = self.sse_buffers.remove(i);
                Some(accumulator)
            },
            None => None,
        }
    }

    fn put_buffer(&mut self, id: String, accumulator: SSEAccumulator)
        ensures
            final(self)@ == (SseModel {
                buffers: old(self)@.buffers.push((id@, accumulator@)),
                ..old(self)@
            }),
    {
        let ghost before = self@;
        let ghost entry = (id@, accumulator@);
        self.sse_buffers.push((id, accumulator));
        assert(self@.buffers =~= before.buffers.push(entry));
    }

    /// The event for a whole response.
    fn create_merged_event(
        connection_id: String,
        accumulator: &SSEAccumulator,
        original_event: &Event,
    ) -> (r: SSEProcessorEvent)
        ensures
            r@ == merged_event(connection_id@, accumulator@, original_event@),
    {
        let json_content: String = accumulator.content.merged_json_content();
        let text_content: String = accumulator.content.copy_text();
        let total_size: usize = text::byte_len(json_content.as_str()).saturating_add(
            text::byte_len(text_content.as_str()),
        );
        let function: String = match original_event.data.get_str("function") {
            Some(s) => text::owned(s),
            None => text::owned("unknown"),
        };
        let status_code: Option<u16> = match original_event.data.get_u64("status_code") {
            Some(n) => Some((n % 0x1_0000) as u16),
            None => None,
        };
        SSEProcessorEvent {
            capture_metadata: accumulator.capture_metadata.finish(),
            connection_id,
            message_id: accumulator.content.copy_message_id(),
            start_time: accumulator.start_time,
            end_time: accumulator.end_time,
            duration_ns: accumulator.end_time.saturating_sub(accumulator.start_time),
            original_source: original_event.source.clone(),
            host: SSEProcessor::event_host(original_event),
            method: copied(original_event.data.get_str("method")),
            path: copied(original_event.data.get_str("path")),
            status_code,
            function,
            tid: or_zero(original_event.data.get_u64("tid")),
            json_content,
            text_content,
            total_size,
            event_count: accumulator.content.event_count(),
            has_message_start: accumulator.content.started(),
            sse_events: accumulator.content.events_to_json(),
        }
    }

    /// Takes an event that holds these server-sent events.
    pub fn handle_events(&mut self, event: &Event, events: &Vec<SSEEvent>, fragment: bool) -> (r:
        SSEOutput)
        ensures
            final(self)@ == old(self)@.after_events(
                event@,
                sse_event::events_view(events@),
                fragment,
            ),
            r@ == old(self)@.output_of_events(event@, sse_event::events_view(events@), fragment),
    {
        let ghost before = self@;
        let ghost all = sse_event::events_view(events@);
        let connection_id: String = SSEProcessor::generate_connection_id(
            event,
            events.as_slice(),
        );
        proof {
            assert(assoc::names(self.sse_buffers@) =~= assoc::keys(self@.buffers));
        }
        if are_idle(events) && assoc::position(
            &self.sse_buffers,
            connection_id.as_str(),
        ).is_none() {
            return SSEOutput::Held;
        }
        self.forget_stale(event.timestamp);
        self.evict_over_capacity();
        assert(self@.buffers == before.swept(event@.timestamp));

        let id: String = match sse_content::extract_message_id(events.as_slice()) {
            Some(_) => connection_id,
            None => {
                let prefix: String = SSEProcessor::prefix_of(&event.data);
                match self.find_open(prefix.as_str()) {
                    Some(open) => open,
                    None => connection_id,
                }
            },
        };
        assert(id@ == before.target(event@, all));
        let mut accumulator: SSEAccumulator = match self.take_buffer(id.as_str()) {
            Some(accumulator) => accumulator,
            None => SSEAccumulator {
                capture_metadata: CaptureMetadataAccumulator::default(),
                content: SSEContent::empty(),
                last_update: event.timestamp,
                start_time: event.timestamp,
                end_time: event.timestamp,
            },
        };
        accumulator.last_update = event.timestamp;
        accumulator.end_time = event.timestamp;
        accumulator.capture_metadata.observe_event(event);
        accumulator.content.accumulate_content(events.as_slice());
        assert(accumulator@ == before.filled(event@, all));

        let finishes: bool = !fragment && some_finish(events);
        if accumulator.content.is_sse_complete() || finishes {
            if accumulator.content.has_meaningful_content() {
                SSEOutput::Merged(SSEProcessor::create_merged_event(id, &accumulator, event))
            } else {
                SSEOutput::Held
            }
        } else {
            self.put_buffer(id, accumulator);
            SSEOutput::Held
        }
    }

    /// Takes the next event, and gives what comes out for it.
    pub fn process_event(&mut self, event: &Event) -> (r: SSEOutput)
        ensures
            final(self)@ == old(self)@.after(event@),
            r@ == old(self)@.output(event@),
    {
        match SSEProcessor::sse_payload(event) {
            Some((data, fragment)) => match SSEProcessor::payload_events(data, fragment) {
                Some(events) => self.handle_events(event, &events, fragment),
                None => SSEOutput::Pass,
            },
            None => SSEOutput::Pass,
        }
    }
}

} // verus!
