//! Server-sent events.

use crate::json;
use crate::json::{Json, JsonValue};
use crate::json_scan;
use crate::sse_processor::SSEProcessor;
use crate::text;
use vstd::prelude::*;

verus! {

/// What a server-sent event says.
pub struct SseEventModel {
    pub event: Option<Seq<char>>,
    pub data: Option<Seq<char>>,
    pub id: Option<Seq<char>>,
    pub parsed_data: Option<Json>,
    pub raw_data: Option<Seq<char>>,
}

/// A server-sent event. Data that are JSON are given as such, other data as they are.
#[derive(Debug, PartialEq, Eq)]
pub struct SSEEvent {
    pub event: Option<String>,
    pub data: Option<String>,
    pub id: Option<String>,
    pub parsed_data: Option<JsonValue>,
    pub raw_data: Option<String>,
}

/// The JSON value that may be there.
pub open spec fn optional_json(v: Option<JsonValue>) -> Option<Json> {
    match v {
        Some(j) => Some(j@),
        None => None,
    }
}

impl View for SSEEvent {
    type V = SseEventModel;

    open spec fn view(&self) -> SseEventModel {
        SseEventModel {
            event: text::optional_view(self.event),
            data: text::optional_view(self.data),
            id: text::optional_view(self.id),
            parsed_data: optional_json(self.parsed_data),
            raw_data: text::optional_view(self.raw_data),
        }
    }
}

impl Clone for SSEEvent {
    fn clone(&self) -> (r: SSEEvent)
        ensures
            r@ == self@,
    {
        SSEEvent {
            event: text::copy(&self.event),
            data: text::copy(&self.data),
            id: text::copy(&self.id),
            parsed_data: match &self.parsed_data {
                Some(v) => Some(v.clone()),
                None => None,
            },
            raw_data: text::copy(&self.raw_data),
        }
    }
}

/// What the events of a list say.
pub open spec fn events_view(v: Seq<SSEEvent>) -> Seq<SseEventModel> {
    Seq::new(v.len(), |i: int| v[i]@)
}

/// The text looks like server-sent events.
pub open spec fn looks_like_sse(data: Seq<char>) -> bool {
    ||| text::contains(data, "event:"@) && text::contains(data, "data:"@)
    ||| text::contains(data, "text/event-stream"@)
    ||| text::contains(data, "Transfer-Encoding: chunked"@) && (text::contains(data, "event:"@)
        || text::contains(data, "data:"@))
    ||| text::contains(data, "data:"@) && (text::contains(data, "\r\n\r\n"@) || text::contains(
        data,
        "\n\n"@,
    ))
}

/// What the lines of an event say, read so far.
pub struct BlockModel {
    pub event: Option<Seq<char>>,
    pub id: Option<Seq<char>>,
    pub data: Seq<Seq<char>>,
}

impl BlockModel {
    pub open spec fn empty() -> BlockModel {
        BlockModel { event: None, id: None, data: Seq::empty() }
    }

    /// After one line more. The last event name and the last id count, and all data.
    pub open spec fn with_line(self, line: Seq<char>) -> BlockModel {
        let l = text::trim(line);
        if text::starts_with(l, "event:"@) {
            BlockModel { event: Some(text::trim(l.skip(6))), ..self }
        } else if text::starts_with(l, "data:"@) {
            BlockModel { data: self.data.push(text::trim(l.skip(5))), ..self }
        } else if text::starts_with(l, "id:"@) {
            BlockModel { id: Some(text::trim(l.skip(3))), ..self }
        } else {
            self
        }
    }

    /// The data of all lines, joined; none where no line has data.
    pub open spec fn joined(self) -> Option<Seq<char>> {
        if self.data.len() == 0 {
            None
        } else {
            Some(text::join(self.data, "\n"@))
        }
    }
}

/// What the lines of an event say.
pub open spec fn block_of(lines: Seq<Seq<char>>) -> BlockModel
    decreases lines.len(),
{
    if lines.len() == 0 {
        BlockModel::empty()
    } else {
        block_of(lines.drop_last()).with_line(lines.last())
    }
}

/// The event for these parts, where `parsed` is what the data are as JSON.
pub open spec fn event_of(
    event: Option<Seq<char>>,
    id: Option<Seq<char>>,
    data: Option<Seq<char>>,
    parsed: Option<Json>,
) -> SseEventModel {
    SseEventModel {
        event,
        data,
        id,
        parsed_data: if data is Some {
            parsed
        } else {
            None
        },
        raw_data: if data is Some && parsed is None {
            data
        } else {
            None
        },
    }
}

/// What the data are as JSON.
pub open spec fn parsed_of(data: Option<Seq<char>>) -> Option<Json> {
    match data {
        Some(d) => json::parsed(d),
        None => None,
    }
}

/// The event that a block of lines is; none where it is blank or has neither a name nor data.
pub open spec fn block_event(block: Seq<char>) -> Option<SseEventModel> {
    let b = block_of(text::split(block, "\n"@));
    if text::is_blank(block) || (b.event is None && b.joined() is None) {
        None
    } else {
        Some(event_of(b.event, b.id, b.joined(), parsed_of(b.joined())))
    }
}

/// The events that blocks are.
pub open spec fn events_of_blocks(blocks: Seq<Seq<char>>) -> Seq<SseEventModel>
    decreases blocks.len(),
{
    if blocks.len() == 0 {
        Seq::empty()
    } else {
        match block_event(blocks.last()) {
            Some(e) => events_of_blocks(blocks.drop_last()).push(e),
            None => events_of_blocks(blocks.drop_last()),
        }
    }
}

/// The blocks of a text: what stands between blank lines, with either kind of line end.
pub open spec fn blocks_of(content: Seq<char>) -> Seq<Seq<char>> {
    text::split(text::replace(content, "\r\n"@, "\n"@), "\n\n"@)
}

/// The events in a text.
pub open spec fn events_in_chunk(content: Seq<char>) -> Seq<SseEventModel> {
    events_of_blocks(blocks_of(content))
}

/// The lines with the content of chunks, from line `i` on: each line that follows on a size. A
/// size of zero, or one that does not fit 32 bits, ends the body.
pub open spec fn chunk_lines(lines: Seq<Seq<char>>, i: int) -> Seq<Seq<char>>
    decreases lines.len() - i,
{
    if i < 0 || i >= lines.len() {
        Seq::empty()
    } else {
        match text::chunk_size(text::trim(lines[i])) {
            None => chunk_lines(lines, i + 1),
            Some(n) => if n == 0 {
                Seq::empty()
            } else if i + 1 < lines.len() {
                seq![lines[i + 1]] + chunk_lines(lines, i + 2)
            } else {
                Seq::empty()
            },
        }
    }
}

/// The content of a chunked body without the sizes.
pub open spec fn without_sizes(content: Seq<char>) -> Seq<char> {
    text::join(chunk_lines(text::split(content, "\r\n"@), 0), "\n"@)
}

/// The events in a text that may be a chunked body.
pub open spec fn events_in(data: Seq<char>) -> Seq<SseEventModel> {
    if text::is_blank(without_sizes(data)) {
        events_in_chunk(data)
    } else {
        events_in_chunk(without_sizes(data))
    }
}

/// The JSON value counts tokens.
pub open spec fn counts_tokens(usage: Json) -> bool {
    usage.field("promptTokenCount"@) is Some || usage.field("candidatesTokenCount"@) is Some
        || usage.field("totalTokenCount"@) is Some
}

/// The event that stands for usage metadata found in a piece of a response.
pub open spec fn usage_event(usage: Json, model: Option<Seq<char>>) -> SseEventModel {
    SseEventModel {
        event: Some("message_stop"@),
        data: None,
        id: None,
        parsed_data: Some(
            Json::Object(
                match model {
                    Some(m) => seq![
                        ("modelVersion"@, Json::Text(m)),
                        ("usageMetadata"@, usage),
                    ],
                    None => seq![("usageMetadata"@, usage)],
                },
            ),
        ),
        raw_data: None,
    }
}

/// The model that a piece of a response names.
pub open spec fn model_in(data: Seq<char>) -> Option<Seq<char>> {
    match json_scan::string_field(data, "modelVersion"@) {
        Some(m) => Some(m),
        None => json_scan::string_field(data, "model"@),
    }
}

/// The usage metadata in a piece of a response, as JSON.
pub open spec fn usage_in(data: Seq<char>) -> Option<Json> {
    match json_scan::object_text(data, "\"usageMetadata\""@) {
        Some(o) => json::parsed(o),
        None => None,
    }
}

/// The event for the usage metadata in a piece of a response, where they count tokens.
pub open spec fn usage_fragment(data: Seq<char>) -> Option<SseEventModel> {
    match usage_in(data) {
        Some(usage) => if counts_tokens(usage) {
            Some(usage_event(usage, model_in(data)))
        } else {
            None
        },
        None => None,
    }
}

impl SSEEvent {
    /// The event for these parts, where `parsed` is what the data are as JSON.
    pub fn from_parts(
        event: Option<String>,
        id: Option<String>,
        data: Option<String>,
        parsed: Option<JsonValue>,
    ) -> (r: SSEEvent)
        ensures
            r@ == event_of(
                text::optional_view(event),
                text::optional_view(id),
                text::optional_view(data),
                optional_json(parsed),
            ),
    {
        if data.is_none() {
            return SSEEvent { event, data, id, parsed_data: None, raw_data: None };
        }
        let raw_data: Option<String> = if parsed.is_none() {
            text::copy(&data)
        } else {
            None
        };
        SSEEvent { event, data, id, parsed_data: parsed, raw_data }
    }

    /// The event that stands for usage metadata.
    pub fn from_usage(usage: JsonValue, model: Option<String>) -> (r: SSEEvent)
        ensures
            r@ == usage_event(usage@, text::optional_view(model)),
    {
        let ghost named = text::optional_view(model);
        let mut fields: Vec<(String, JsonValue)> = Vec::new();
        match model {
            Some(m) => {
                fields.push((text::owned("modelVersion"), JsonValue::Text(m)));
            },
            None => {},
        }
        fields.push((text::owned("usageMetadata"), usage));
        proof {
            json::lemma_object_view(fields);
            match named {
                Some(m) => {
                    assert(json::fields_view(fields@) =~= seq![
                        ("modelVersion"@, Json::Text(m)),
                        ("usageMetadata"@, usage@),
                    ]);
                },
                None => {
                    assert(json::fields_view(fields@) =~= seq![("usageMetadata"@, usage@)]);
                },
            }
        }
        SSEEvent {
            event: Some(text::owned("message_stop")),
            data: None,
            id: None,
            parsed_data: Some(JsonValue::Object(fields)),
            raw_data: None,
        }
    }
}

/// Whether a JSON value counts tokens.
pub fn has_token_counts(usage: &JsonValue) -> (r: bool)
    ensures
        r == counts_tokens(usage@),
{
    usage.get("promptTokenCount").is_some() || usage.get("candidatesTokenCount").is_some()
        || usage.get("totalTokenCount").is_some()
}

/// Reads the event that a block of lines is.
fn read_block(block: &[char]) -> (r: Option<SSEEvent>)
    ensures
        match r {
            Some(e) => block_event(block@) == Some(e@),
            None => block_event(block@) is None,
        },
{
    if text::blank(block) {
        return None;
    }
    proof {
        reveal_strlit("\n");
        reveal_strlit("event:");
        reveal_strlit("data:");
        reveal_strlit("id:");
    }
    let lines: Vec<&[char]> = text::pieces(block, "\n");
    let ghost all = text::pieces_view(lines@);
    let mut event: Option<String> = None;
    let mut id: Option<String> = None;
    let mut data_lines: Vec<&[char]> = Vec::new();
    assert(text::pieces_view(data_lines@) =~= Seq::empty());
    let mut i: usize = 0;
    while i < lines.len()
        invariant
            i <= lines@.len(),
            all == text::pieces_view(lines@),
            "event:"@.len() == 6,
            "data:"@.len() == 5,
            "id:"@.len() == 3,
            block_of(all.take(i as int)) == (BlockModel {
                event: text::optional_view(event),
                id: text::optional_view(id),
                data: text::pieces_view(data_lines@),
            }),
        decreases lines@.len() - i,
    {
        proof {
            assert(all.take(i + 1).drop_last() =~= all.take(i as int));
            assert(all.take(i + 1).last() == lines@[i as int]@);
        }
        let line: &[char] = text::trimmed(lines[i]);
        if text::begins(line, "event:") {
            event = Some(text::string(text::trimmed(text::after_first(line, 6))));
        } else if text::begins(line, "data:") {
            let ghost before = data_lines@;
            let value: &[char] = text::trimmed(text::after_first(line, 5));
            data_lines.push(value);
            assert(text::pieces_view(data_lines@) =~= text::pieces_view(before).push(value@));
        } else if text::begins(line, "id:") {
            id = Some(text::string(text::trimmed(text::after_first(line, 3))));
        }
        i += 1;
    }
    assert(all.take(i as int) =~= all);
    let data: Option<String> = if data_lines.len() > 0 {
        Some(text::joined(&data_lines, "\n"))
    } else {
        None
    };
    if event.is_none() && data.is_none() {
        return None;
    }
    let parsed: Option<JsonValue> = match &data {
        Some(d) => json::parse_json(d.as_str()),
        None => None,
    };
    Some(SSEEvent::from_parts(event, id, data, parsed))
}

impl SSEProcessor {
    /// Whether a text looks like server-sent events.
    pub fn is_sse_data(data: &str) -> (r: bool)
        ensures
            r == looks_like_sse(data@),
    {
        let all: Vec<char> = text::chars(data);
        let s: &[char] = all.as_slice();
        let has_sse_patterns: bool = text::has(s, "event:") && text::has(s, "data:");
        let has_sse_content_type: bool = text::has(s, "text/event-stream");
        let has_chunked_sse: bool = text::has(s, "Transfer-Encoding: chunked") && (text::has(
            s,
            "event:",
        ) || text::has(s, "data:"));
        let has_sse_data_only: bool = text::has(s, "data:") && (text::has(s, "\r\n\r\n")
            || text::has(s, "\n\n"));
        has_sse_patterns || has_sse_content_type || has_chunked_sse || has_sse_data_only
    }

    /// Reads the events in a text.
    pub fn parse_sse_events_from_chunk(chunk_content: &str) -> (r: Vec<SSEEvent>)
        ensures
            events_view(r@) == events_in_chunk(chunk_content@),
    {
        proof {
            reveal_strlit("\r\n");
            reveal_strlit("\n\n");
        }
        let all: Vec<char> = text::chars(chunk_content);
        let normalized: String = text::joined(&text::pieces(all.as_slice(), "\r\n"), "\n");
        let unix: Vec<char> = text::chars(normalized.as_str());
        let blocks: Vec<&[char]> = text::pieces(unix.as_slice(), "\n\n");
        let ghost every = text::pieces_view(blocks@);
        let mut events: Vec<SSEEvent> = Vec::new();
        assert(events_view(events@) =~= Seq::empty());
        let mut i: usize = 0;
        while i < blocks.len()
            invariant
                i <= blocks@.len(),
                every == text::pieces_view(blocks@),
                events_view(events@) == events_of_blocks(every.take(i as int)),
            decreases blocks@.len() - i,
        {
            proof {
                assert(every.take(i + 1).drop_last() =~= every.take(i as int));
                assert(every.take(i + 1).last() == blocks@[i as int]@);
            }
            match read_block(blocks[i]) {
                Some(event) => {
                    let ghost before = events@;
                    events.push(event);
                    assert(events_view(events@) =~= events_view(before).push(event@));
                },
                None => {},
            }
            i += 1;
        }
        assert(every.take(i as int) =~= every);
        events
    }

    /// Reads the events in a text that may be a chunked body.
    pub fn parse_sse_events(data: &str) -> (r: Vec<SSEEvent>)
        ensures
            events_view(r@) == events_in(data@),
    {
        let clean_data: String = SSEProcessor::clean_chunked_content(data);
        let clean_chars: Vec<char> = text::chars(clean_data.as_str());
        if text::blank(clean_chars.as_slice()) {
            SSEProcessor::parse_sse_events_from_chunk(data)
        } else {
            SSEProcessor::parse_sse_events_from_chunk(clean_data.as_str())
        }
    }

    /// The content of a chunked body without the sizes.
    pub fn clean_chunked_content(content: &str) -> (r: String)
        ensures
            r@ == without_sizes(content@),
    {
        proof {
            reveal_strlit("\r\n");
        }
        let all: Vec<char> = text::chars(content);
        let lines: Vec<&[char]> = text::pieces(all.as_slice(), "\r\n");
        let ghost every = text::pieces_view(lines@);
        let total: usize = lines.len();
        let mut parts: Vec<&[char]> = Vec::new();
        let mut i: usize = 0;
        assert(text::pieces_view(parts@) + chunk_lines(every, 0) =~= chunk_lines(every, 0));
        while i < total
            invariant
                total == lines@.len(),
                i <= total,
                every == text::pieces_view(lines@),
                every == text::split(content@, "\r\n"@),
                text::pieces_view(parts@) + chunk_lines(every, i as int) == chunk_lines(every, 0),
            decreases total - i,
        {
            match text::read_chunk_size(text::trimmed(lines[i])) {
                Some(size) => {
                    if size == 0 {
                        assert(text::pieces_view(parts@) =~= chunk_lines(every, 0));
                        return text::joined(&parts, "\n");
                    }
                    if total - i > 1 {
                        let ghost before = parts@;
                        parts.push(lines[i + 1]);
                        proof {
                            assert(text::pieces_view(parts@) =~= text::pieces_view(before).push(
                                every[i + 1],
                            ));
                            assert(text::pieces_view(parts@) + chunk_lines(every, i + 2)
                                =~= text::pieces_view(before) + (seq![every[i + 1]] + chunk_lines(
                                every,
                                i + 2,
                            )));
                        }
                        i += 2;
                    } else {
                        assert(text::pieces_view(parts@) =~= chunk_lines(every, 0));
                        return text::joined(&parts, "\n");
                    }
                },
                None => {
                    i += 1;
                },
            }
        }
        assert(text::pieces_view(parts@) =~= chunk_lines(every, 0));
        text::joined(&parts, "\n")
    }

    /// Reads the usage metadata in a piece of a response.
    pub fn parse_usage_metadata_fragment(data: &str) -> (r: Option<SSEEvent>)
        ensures
            match r {
                Some(e) => usage_fragment(data@) == Some(e@),
                None => usage_fragment(data@) is None,
            },
    {
        let all: Vec<char> = text::chars(data);
        let s: &[char] = all.as_slice();
        let usage_text: String = match json_scan::extract_json_object_after_key(
            s,
            "\"usageMetadata\"",
        ) {
            Some(o) => text::string(o),
            None => {
                return None;
            },
        };
        let usage: JsonValue = match json::parse_json(usage_text.as_str()) {
            Some(usage) => usage,
            None => {
                return None;
            },
        };
        if !has_token_counts(&usage) {
            return None;
        }
        let model: Option<String> = match json_scan::extract_json_string_field(s, "modelVersion") {
            Some(m) => Some(m),
            None => json_scan::extract_json_string_field(s, "model"),
        };
        Some(SSEEvent::from_usage(usage, model))
    }
}

} // verus!
