//! When a stream of server-sent events is complete, whether it says anything, and its summary.

use crate::assoc;
use crate::json;
use crate::json::{Json, JsonValue};
use crate::ordered;
use crate::sse_content;
use crate::sse_content::{ContentModel, ToolCallModel};
use crate::sse_event::{SSEEvent, SseEventModel};
use crate::text;
use vstd::prelude::*;

verus! {

/// How many bytes of text, or of JSON, a stream has at most before it counts as complete.
pub const MAX_CONTENT_BYTES: usize = 50000;

/// Some value of the object is not null.
pub open spec fn usage_counts(usage: Option<Json>) -> bool {
    match usage {
        Some(u) => match u.as_fields() {
            Some(fields) => exists|i: int|
                0 <= i < fields.len() && !((#[trigger] fields[i]).1 is Null),
            None => false,
        },
        None => false,
    }
}

/// The data tell a usage that ends a stream.
pub open spec fn ends_with_usage(data: Json) -> bool {
    ||| usage_counts(data.field("usageMetadata"@))
    ||| usage_counts(data.field("usage"@))
    ||| usage_counts(sse_content::inner_field(data, "response"@, "usage"@))
}

/// The data tell a usage: one that ends a stream, or that of a message.
pub open spec fn tells_usage(data: Json) -> bool {
    ends_with_usage(data) || usage_counts(sse_content::inner_field(data, "message"@, "usage"@))
}

/// The choice adds something.
pub open spec fn choice_adds(choice: Json) -> bool {
    match choice.fields_field("delta"@) {
        Some(delta) => {
            ||| match sse_content::text_under(delta, "content"@) {
                Some(s) => s.len() > 0,
                None => false,
            }
            ||| match sse_content::list_under(delta, "tool_calls"@) {
                Some(l) => l.len() > 0,
                None => false,
            }
            ||| assoc::lookup(delta, "function_call"@) is Some
            ||| sse_content::reasoning_delta(delta) is Some
        },
        None => false,
    }
}

/// Some choice of a completion adds something.
pub open spec fn completion_adds(data: Json) -> bool {
    match data.list_field("choices"@) {
        Some(choices) => exists|i: int|
            0 <= i < choices.len() && choice_adds(#[trigger] choices[i]),
        None => false,
    }
}

/// The choice says why it ended.
pub open spec fn choice_ends(choice: Json) -> bool {
    match choice.field("finish_reason"@) {
        Some(reason) => !(reason is Null),
        None => false,
    }
}

/// Some choice of a completion says why it ended.
pub open spec fn completion_ends(data: Json) -> bool {
    match data.list_field("choices"@) {
        Some(choices) => exists|i: int|
            0 <= i < choices.len() && choice_ends(#[trigger] choices[i]),
        None => false,
    }
}

/// The data of the responses API add something.
pub open spec fn response_adds(data: Json) -> bool {
    let kind = sse_content::response_type(data);
    ||| kind == Some("response.output_text.delta"@)
    ||| kind == Some("response.reasoning_text.delta"@)
    ||| kind == Some("response.reasoning_summary_text.delta"@)
    ||| kind == Some("response.function_call_arguments.delta"@)
    ||| kind == Some("response.function_call_arguments.done"@)
    ||| kind == Some("response.output_item.added"@)
    ||| kind == Some("response.output_item.done"@)
}

/// The data of the responses API end the response.
pub open spec fn response_ends(data: Json) -> bool {
    let kind = sse_content::response_type(data);
    ||| kind == Some("response.completed"@)
    ||| kind == Some("response.failed"@)
    ||| kind == Some("response.incomplete"@)
    ||| kind == Some("response.cancelled"@)
}

/// The event ends its stream.
pub open spec fn event_completes(e: SseEventModel) -> bool {
    ||| e.data == Some("[DONE]"@)
    ||| match e.parsed_data {
        Some(data) => ends_with_usage(data) || response_ends(data),
        None => false,
    }
    ||| e.event == Some("message_stop"@)
    ||| e.event == Some("error"@)
}

/// The data of the event say that a choice ended.
pub open spec fn event_finishes(e: SseEventModel) -> bool {
    match e.parsed_data {
        Some(data) => completion_ends(data),
        None => false,
    }
}

/// The data of the event say something.
pub open spec fn event_tells(e: SseEventModel) -> bool {
    match e.parsed_data {
        Some(data) => tells_usage(data) || completion_adds(data) || completion_ends(data)
            || response_adds(data) || response_ends(data),
        None => false,
    }
}

/// Some event has this name.
pub open spec fn has_named(events: Seq<SseEventModel>, name: Seq<char>) -> bool {
    exists|i: int| 0 <= i < events.len() && (#[trigger] events[i]).event == Some(name)
}

/// The stream is complete: some event ends it, or too much has come in.
pub open spec fn is_complete(c: ContentModel) -> bool {
    ||| exists|i: int| 0 <= i < c.events.len() && event_completes(#[trigger] c.events[i])
    ||| vstd::utf8::encode_utf8(c.text).len() > MAX_CONTENT_BYTES
    ||| vstd::utf8::encode_utf8(c.json).len() > MAX_CONTENT_BYTES
}

/// The stream says something: content came in, some event tells something, or a message was
/// started and more than its frame came in.
pub open spec fn is_meaningful(c: ContentModel) -> bool {
    ||| c.text.len() > 0
    ||| c.json.len() > 0
    ||| c.reasoning.len() > 0
    ||| c.tool_calls.len() > 0
    ||| exists|i: int| 0 <= i < c.events.len() && event_tells(#[trigger] c.events[i])
    ||| has_named(c.events, "content_block_delta"@)
    ||| has_named(c.events, "message_start"@) && c.events.len() > 3
}

/// A tool call as JSON.
pub open spec fn tool_call_json(index: u64, call: ToolCallModel) -> Json {
    Json::Object(
        seq![
            (
                "function"@,
                Json::Object(
                    seq![
                        ("arguments"@, Json::Text(call.function_arguments)),
                        ("name"@, json::text_or_null(call.function_name)),
                    ],
                ),
            ),
            ("id"@, json::text_or_null(call.id)),
            ("index"@, Json::Unsigned(index)),
            ("type"@, json::text_or_null(call.call_type)),
        ],
    )
}

/// The tool calls as JSON, in the order of their indices.
pub open spec fn tool_calls_json(calls: Map<u64, ToolCallModel>) -> Seq<Json> {
    ordered::ascending(calls.dom()).map_values(|i: u64| tool_call_json(i, calls[i]))
}

/// The JSON that came in piece by piece, as a value where it is one.
pub open spec fn partial_json(s: Seq<char>) -> Json {
    match json::parsed(s) {
        Some(v) => v,
        None => Json::Text(s),
    }
}

/// What a stream says besides its text, as one JSON object.
pub open spec fn extras(c: ContentModel, partial: Json) -> Seq<(Seq<char>, Json)> {
    let a = if c.json.len() > 0 {
        seq![("partial_json"@, partial)]
    } else {
        Seq::empty()
    };
    let b = if c.reasoning.len() > 0 {
        a.push(("reasoning_content"@, Json::Text(c.reasoning)))
    } else {
        a
    };
    if c.tool_calls.len() > 0 {
        b.push(("tool_calls"@, Json::List(tool_calls_json(c.tool_calls))))
    } else {
        b
    }
}

/// JSON text with indentation, where it is JSON; other text as it is.
pub open spec fn formatted(s: Seq<char>) -> Seq<char> {
    if s.len() == 0 {
        s
    } else {
        match json::parsed(s) {
            Some(v) => match json::pretty(v) {
                Some(t) => t,
                None => s,
            },
            None => s,
        }
    }
}

/// The JSON text of a stream: its own JSON, or one object with all that it says besides its text.
pub open spec fn json_content(c: ContentModel) -> Seq<char> {
    if c.reasoning.len() == 0 && c.tool_calls.len() == 0 {
        formatted(c.json)
    } else {
        match json::pretty(Json::Object(extras(c, partial_json(c.json)))) {
            Some(t) => t,
            None => Seq::empty(),
        }
    }
}

pub open spec fn json_or_null(v: Option<Json>) -> Json {
    match v {
        Some(j) => j,
        None => Json::Null,
    }
}

/// An event as JSON.
pub open spec fn event_json(e: SseEventModel) -> Json {
    Json::Object(
        seq![
            ("data"@, json::text_or_null(e.data)),
            ("event"@, json::text_or_null(e.event)),
            ("id"@, json::text_or_null(e.id)),
            ("parsed_data"@, json_or_null(e.parsed_data)),
            ("raw_data"@, json::text_or_null(e.raw_data)),
        ],
    )
}

fn object_counts(usage: Option<&JsonValue>) -> (r: bool)
    ensures
        r == usage_counts(crate::capture_metadata::option_view(usage)),
{
    let fields: &Vec<(String, JsonValue)> = match usage {
        Some(u) => match u.as_object() {
            Some(fields) => fields,
            None => {
                return false;
            },
        },
        None => {
            return false;
        },
    };
    let ghost all = json::fields_view(fields@);
    let mut i: usize = 0;
    while i < fields.len()
        invariant
            i <= fields@.len(),
            all == json::fields_view(fields@),
            usage is Some,
            usage->0@.as_fields() == Some(all),
            forall|k: int| 0 <= k < i ==> (#[trigger] all[k]).1 is Null,
        decreases fields@.len() - i,
    {
        if !fields[i].1.is_null() {
            assert(!(all[i as int].1 is Null));
            return true;
        }
        i += 1;
    }
    false
}

fn get_inner<'a>(data: &'a JsonValue, outer: &str, inner: &str) -> (r: Option<&'a JsonValue>)
    ensures
        crate::capture_metadata::option_view(r) == sse_content::inner_field(
            data@,
            outer@,
            inner@,
        ),
{
    match data.get(outer) {
        Some(v) => v.get(inner),
        None => None,
    }
}

/// Whether data tell a usage that ends a stream.
pub fn has_stream_completing_usage(data: &JsonValue) -> (r: bool)
    ensures
        r == ends_with_usage(data@),
{
    object_counts(data.get("usageMetadata")) || object_counts(data.get("usage")) || object_counts(
        get_inner(data, "response", "usage"),
    )
}

/// Whether data tell a usage.
pub fn has_meaningful_usage(data: &JsonValue) -> (r: bool)
    ensures
        r == tells_usage(data@),
{
    has_stream_completing_usage(data) || object_counts(get_inner(data, "message", "usage"))
}

fn choice_has_delta(choice: &JsonValue) -> (r: bool)
    ensures
        r == choice_adds(choice@),
{
    match choice.get_object("delta") {
        Some(delta) => {
            let has_content: bool = match json::find_field(delta, "content") {
                Some(v) => match v.as_str() {
                    Some(s) => !s.is_empty(),
                    None => false,
                },
                None => false,
            };
            let has_tool_calls: bool = match json::find_field(delta, "tool_calls") {
                Some(v) => match v.as_array() {
                    Some(l) => l.len() > 0,
                    None => false,
                },
                None => false,
            };
            has_content || has_tool_calls || json::find_field(delta, "function_call").is_some()
                || sse_content::openai_reasoning_delta(delta).is_some()
        },
        None => false,
    }
}

/// Whether some choice of a completion adds something.
pub fn has_openai_delta(data: &JsonValue) -> (r: bool)
    ensures
        r == completion_adds(data@),
{
    let choices: &Vec<JsonValue> = match data.get_array("choices") {
        Some(choices) => choices,
        None => {
            return false;
        },
    };
    let ghost all = json::items_view(choices@);
    let mut i: usize = 0;
    while i < choices.len()
        invariant
            i <= choices@.len(),
            all == json::items_view(choices@),
            data@.list_field("choices"@) == Some(all),
            forall|k: int| 0 <= k < i ==> !choice_adds(#[trigger] all[k]),
        decreases choices@.len() - i,
    {
        if choice_has_delta(&choices[i]) {
            assert(completion_adds(data@)) by {
                assert(choice_adds(data@.list_field("choices"@)->0[i as int]));
            }
            return true;
        }
        i += 1;
    }
    false
}

/// Whether some choice of a completion says why it ended.
pub fn has_terminal_finish_reason(data: &JsonValue) -> (r: bool)
    ensures
        r == completion_ends(data@),
{
    let choices: &Vec<JsonValue> = match data.get_array("choices") {
        Some(choices) => choices,
        None => {
            return false;
        },
    };
    let ghost all = json::items_view(choices@);
    let mut i: usize = 0;
    while i < choices.len()
        invariant
            i <= choices@.len(),
            all == json::items_view(choices@),
            data@.list_field("choices"@) == Some(all),
            forall|k: int| 0 <= k < i ==> !choice_ends(#[trigger] all[k]),
        decreases choices@.len() - i,
    {
        let ended: bool = match choices[i].get("finish_reason") {
            Some(reason) => !reason.is_null(),
            None => false,
        };
        if ended {
            assert(completion_ends(data@)) by {
                assert(choice_ends(data@.list_field("choices"@)->0[i as int]));
            }
            return true;
        }
        i += 1;
    }
    false
}

/// Whether data of the responses API add something.
pub fn has_openai_response_delta(data: &JsonValue) -> (r: bool)
    ensures
        r == response_adds(data@),
{
    match sse_content::openai_response_event_type(data) {
        Some(kind) => text::same(kind, "response.output_text.delta") || text::same(
            kind,
            "response.reasoning_text.delta",
        ) || text::same(kind, "response.reasoning_summary_text.delta") || text::same(
            kind,
            "response.function_call_arguments.delta",
        ) || text::same(kind, "response.function_call_arguments.done") || text::same(
            kind,
            "response.output_item.added",
        ) || text::same(kind, "response.output_item.done"),
        None => false,
    }
}

/// Whether data of the responses API end the response.
pub fn has_openai_response_terminal(data: &JsonValue) -> (r: bool)
    ensures
        r == response_ends(data@),
{
    match sse_content::openai_response_event_type(data) {
        Some(kind) => text::same(kind, "response.completed") || text::same(kind, "response.failed")
            || text::same(kind, "response.incomplete") || text::same(kind, "response.cancelled"),
        None => false,
    }
}

/// Whether an event ends its stream.
pub fn sse_event_completes_stream(event: &SSEEvent) -> (r: bool)
    ensures
        r == event_completes(event@),
{
    let is_done: bool = match &event.data {
        Some(data) => text::same(data.as_str(), "[DONE]"),
        None => false,
    };
    let is_last: bool = match &event.parsed_data {
        Some(data) => has_stream_completing_usage(data) || has_openai_response_terminal(data),
        None => false,
    };
    is_done || is_last || sse_content::is_named(event, "message_stop") || sse_content::is_named(
        event,
        "error",
    )
}

/// Whether the data of an event say that a choice ended.
pub fn sse_event_has_terminal_finish(event: &SSEEvent) -> (r: bool)
    ensures
        r == event_finishes(event@),
{
    match &event.parsed_data {
        Some(data) => has_terminal_finish_reason(data),
        None => false,
    }
}

/// Whether the data of an event say something.
pub fn sse_event_is_telling(event: &SSEEvent) -> (r: bool)
    ensures
        r == event_tells(event@),
{
    match &event.parsed_data {
        Some(data) => has_meaningful_usage(data) || has_openai_delta(data)
            || has_terminal_finish_reason(data) || has_openai_response_delta(data)
            || has_openai_response_terminal(data),
        None => false,
    }
}

/// An event as JSON.
pub fn event_to_json(event: &SSEEvent) -> (r: JsonValue)
    ensures
        r@ == event_json(event@),
{
    let parsed: JsonValue = match &event.parsed_data {
        Some(v) => v.clone(),
        None => JsonValue::Null,
    };
    let mut fields: Vec<(String, JsonValue)> = Vec::new();
    fields.push((text::owned("data"), json::optional_text(&event.data)));
    fields.push((text::owned("event"), json::optional_text(&event.event)));
    fields.push((text::owned("id"), json::optional_text(&event.id)));
    fields.push((text::owned("parsed_data"), parsed));
    fields.push((text::owned("raw_data"), json::optional_text(&event.raw_data)));
    proof {
        json::lemma_object_view(fields);
        assert(json::fields_view(fields@) =~= event_json(event@)->Object_0);
    }
    JsonValue::Object(fields)
}

/// JSON text with indentation, where it is JSON; other text as it is.
pub fn formatted_accumulated_json(json_content: &str) -> (r: String)
    ensures
        r@ == formatted(json_content@),
{
    if json_content.is_empty() {
        return text::owned(json_content);
    }
    match json::parse_json(json_content) {
        Some(v) => match json::pretty_json(&v) {
            Some(t) => t,
            None => text::owned(json_content),
        },
        None => text::owned(json_content),
    }
}

} // verus!
