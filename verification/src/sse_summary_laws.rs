//! Laws of whole streams: what ends a stream, what makes it say something, and what its summary
//! holds.

use crate::assoc;
use crate::json;
use crate::json::Json;
use crate::ordered;
use crate::sse_content::{ContentModel, ToolCallModel};
use crate::sse_event::SseEventModel;
use crate::sse_summary;
use crate::text;
use vstd::prelude::*;

verus! {

/// The value is an object in which something is not null.
pub open spec fn counts(usage: Option<Json>) -> bool {
    match usage {
        Some(Json::Object(fields)) => exists|k: int|
            0 <= k < fields.len() && !((#[trigger] fields[k]).1 is Null),
        _ => false,
    }
}

/// The data have a usage of their own, as metadata, or of a response.
pub open spec fn has_usage(data: Json) -> bool {
    ||| counts(data.field("usage"@))
    ||| counts(data.field("usageMetadata"@))
    ||| data.field("response"@) is Some && counts((data.field("response"@)->0).field("usage"@))
}

/// The data are of one of the four types that end a response.
pub open spec fn has_final_type(data: Json) -> bool {
    ||| data.field("type"@) == Some(Json::Text("response.completed"@))
    ||| data.field("type"@) == Some(Json::Text("response.failed"@))
    ||| data.field("type"@) == Some(Json::Text("response.incomplete"@))
    ||| data.field("type"@) == Some(Json::Text("response.cancelled"@))
}

/// The data are of one of the seven types that add to a response.
pub open spec fn has_adding_type(data: Json) -> bool {
    ||| data.field("type"@) == Some(Json::Text("response.output_text.delta"@))
    ||| data.field("type"@) == Some(Json::Text("response.reasoning_text.delta"@))
    ||| data.field("type"@) == Some(Json::Text("response.reasoning_summary_text.delta"@))
    ||| data.field("type"@) == Some(Json::Text("response.function_call_arguments.delta"@))
    ||| data.field("type"@) == Some(Json::Text("response.function_call_arguments.done"@))
    ||| data.field("type"@) == Some(Json::Text("response.output_item.added"@))
    ||| data.field("type"@) == Some(Json::Text("response.output_item.done"@))
}

proof fn lemma_final_types()
    ensures
        text::starts_with("response.completed"@, "response."@),
        text::starts_with("response.failed"@, "response."@),
        text::starts_with("response.incomplete"@, "response."@),
        text::starts_with("response.cancelled"@, "response."@),
{
    reveal_strlit("response.");
    reveal_strlit("response.completed");
    reveal_strlit("response.failed");
    reveal_strlit("response.incomplete");
    reveal_strlit("response.cancelled");
    let p = "response."@;
    assert("response.completed"@.subrange(0, 9) =~= p);
    assert("response.failed"@.subrange(0, 9) =~= p);
    assert("response.incomplete"@.subrange(0, 9) =~= p);
    assert("response.cancelled"@.subrange(0, 9) =~= p);
}

proof fn lemma_adding_types()
    ensures
        text::starts_with("response.output_text.delta"@, "response."@),
        text::starts_with("response.reasoning_text.delta"@, "response."@),
        text::starts_with("response.reasoning_summary_text.delta"@, "response."@),
        text::starts_with("response.function_call_arguments.delta"@, "response."@),
        text::starts_with("response.function_call_arguments.done"@, "response."@),
        text::starts_with("response.output_item.added"@, "response."@),
        text::starts_with("response.output_item.done"@, "response."@),
{
    reveal_strlit("response.");
    reveal_strlit("response.output_text.delta");
    reveal_strlit("response.reasoning_text.delta");
    reveal_strlit("response.reasoning_summary_text.delta");
    reveal_strlit("response.function_call_arguments.delta");
    reveal_strlit("response.function_call_arguments.done");
    reveal_strlit("response.output_item.added");
    reveal_strlit("response.output_item.done");
    let p = "response."@;
    assert("response.output_text.delta"@.subrange(0, 9) =~= p);
    assert("response.reasoning_text.delta"@.subrange(0, 9) =~= p);
    assert("response.reasoning_summary_text.delta"@.subrange(0, 9) =~= p);
    assert("response.function_call_arguments.delta"@.subrange(0, 9) =~= p);
    assert("response.function_call_arguments.done"@.subrange(0, 9) =~= p);
    assert("response.output_item.added"@.subrange(0, 9) =~= p);
    assert("response.output_item.done"@.subrange(0, 9) =~= p);
}

/// The event is the last of its stream: the word `[DONE]`, a stop or an error by its name, or data
/// with a usage or of a type that ends a response.
pub open spec fn is_last(e: SseEventModel) -> bool {
    ||| e.data == Some("[DONE]"@)
    ||| e.event == Some("message_stop"@)
    ||| e.event == Some("error"@)
    ||| e.parsed_data is Some && (has_usage(e.parsed_data->0) || has_final_type(e.parsed_data->0))
}

/// A stream is complete exactly if one of its events is a last one, or if its text or its JSON
/// takes more than 50000 bytes.
pub proof fn law_streams_end_with_a_last_event(c: ContentModel)
    ensures
        sse_summary::is_complete(c) == ((exists|i: int|
            0 <= i < c.events.len() && is_last(#[trigger] c.events[i]))
            || vstd::utf8::encode_utf8(c.text).len() > 50000 || vstd::utf8::encode_utf8(
            c.json,
        ).len() > 50000),
{
    lemma_final_types();
    assert forall|i: int| 0 <= i < c.events.len() implies sse_summary::event_completes(
        #[trigger] c.events[i],
    ) == is_last(c.events[i]) by {
        let e = c.events[i];
        match e.parsed_data {
            Some(data) => {
                assert(sse_summary::ends_with_usage(data) == has_usage(data));
            },
            None => {},
        }
    }
    if exists|i: int| 0 <= i < c.events.len() && is_last(#[trigger] c.events[i]) {
        let i = choose|i: int| 0 <= i < c.events.len() && is_last(#[trigger] c.events[i]);
        assert(sse_summary::event_completes(c.events[i]));
    }
    if exists|i: int|
        0 <= i < c.events.len() && sse_summary::event_completes(#[trigger] c.events[i]) {
        let i = choose|i: int|
            0 <= i < c.events.len() && sse_summary::event_completes(#[trigger] c.events[i]);
        assert(is_last(c.events[i]));
    }
}

/// The choice of a completion says something: a text, tool calls, a function call or reasoning in
/// its delta, or why it ended.
pub open spec fn choice_says(choice: Json) -> bool {
    ||| choice.field("finish_reason"@) is Some && choice.field("finish_reason"@) != Some(Json::Null)
    ||| match choice.field("delta"@) {
        Some(Json::Object(delta)) => {
            ||| assoc::lookup(delta, "content"@) matches Some(Json::Text(s)) && s.len() > 0
            ||| assoc::lookup(delta, "tool_calls"@) matches Some(Json::List(l)) && l.len() > 0
            ||| assoc::lookup(delta, "function_call"@) is Some
            ||| assoc::lookup(delta, "reasoning_content"@) matches Some(Json::Text(s)) && s.len() > 0
            ||| assoc::lookup(delta, "reasoning_content"@) is None && (assoc::lookup(
                delta,
                "reasoning"@,
            ) matches Some(Json::Text(s)) && s.len() > 0)
        },
        _ => false,
    }
}

/// The choice of a completion says nothing: no reason for its end, and nothing in its delta.
pub open spec fn choice_is_silent(choice: Json) -> bool {
    &&& choice.field("finish_reason"@) is None || choice.field("finish_reason"@) == Some(Json::Null)
    &&& match choice.field("delta"@) {
        Some(Json::Object(delta)) => {
            &&& assoc::lookup(delta, "content"@) is None || assoc::lookup(delta, "content"@)
                == Some(Json::Text(Seq::empty())) || assoc::lookup(delta, "content"@) == Some(
                Json::Null,
            )
            &&& assoc::lookup(delta, "tool_calls"@) is None
            &&& assoc::lookup(delta, "function_call"@) is None
            &&& assoc::lookup(delta, "reasoning_content"@) is None
            &&& assoc::lookup(delta, "reasoning"@) is None
            &&& assoc::lookup(delta, "reasoning_text"@) is None
            &&& assoc::lookup(delta, "thinking"@) is None
        },
        _ => true,
    }
}

/// A stream says something where it has text, JSON, reasoning or a tool call, where one of its
/// events adds content, tells a usage or the end of a response, or has a choice that says
/// something, and where a message was started and more than three events came in.
pub proof fn law_streams_say_something(c: ContentModel, i: int, data: Json, choices: Seq<Json>, k: int)
    requires
        0 <= i < c.events.len(),
    ensures
        c.text.len() > 0 ==> sse_summary::is_meaningful(c),
        c.json.len() > 0 ==> sse_summary::is_meaningful(c),
        c.reasoning.len() > 0 ==> sse_summary::is_meaningful(c),
        c.tool_calls.len() > 0 ==> sse_summary::is_meaningful(c),
        c.events[i].event == Some("content_block_delta"@) ==> sse_summary::is_meaningful(c),
        c.events[i].event == Some("message_start"@) && c.events.len() > 3
            ==> sse_summary::is_meaningful(c),
        c.events[i].parsed_data == Some(data) && (has_usage(data) || has_final_type(data)
            || has_adding_type(data)) ==> sse_summary::is_meaningful(c),
        c.events[i].parsed_data == Some(data) && data.field("message"@) is Some && counts(
            (data.field("message"@)->0).field("usage"@),
        ) ==> sse_summary::is_meaningful(c),
        c.events[i].parsed_data == Some(data) && data.field("choices"@) == Some(
            Json::List(choices),
        ) && 0 <= k < choices.len() && choice_says(choices[k]) ==> sse_summary::is_meaningful(c),
{
    lemma_final_types();
    lemma_adding_types();
    let e = c.events[i];
    if e.parsed_data == Some(data) {
        assert(sse_summary::ends_with_usage(data) == has_usage(data));
        assert(sse_summary::event_tells(e) == (sse_summary::tells_usage(data)
            || sse_summary::completion_adds(data) || sse_summary::completion_ends(data)
            || sse_summary::response_adds(data) || sse_summary::response_ends(data)));
        if data.field("choices"@) == Some(Json::List(choices)) && 0 <= k < choices.len()
            && choice_says(choices[k]) {
            assert(sse_summary::choice_adds(choices[k]) || sse_summary::choice_ends(choices[k]));
            assert(sse_summary::event_tells(e));
        }
        if has_usage(data) || has_final_type(data) || has_adding_type(data) {
            assert(sse_summary::event_tells(e));
        }
        if data.field("message"@) is Some && counts((data.field("message"@)->0).field("usage"@)) {
            assert(sse_summary::event_tells(e));
        }
    }
}

/// The event says nothing: it adds no content, and its data have no usage, no type of the
/// responses API and no choice that says something.
pub open spec fn is_silent(e: SseEventModel) -> bool {
    &&& e.event != Some("content_block_delta"@)
    &&& match e.parsed_data {
        Some(data) => {
            &&& !has_usage(data)
            &&& data.field("message"@) is None || !counts((data.field("message"@)->0).field("usage"@))
            &&& !has_final_type(data) && !has_adding_type(data)
            &&& match data.field("choices"@) {
                Some(Json::List(choices)) => forall|k: int|
                    0 <= k < choices.len() ==> choice_is_silent(#[trigger] choices[k]),
                _ => true,
            }
        },
        None => true,
    }
}

/// A stream without content whose events all say nothing says nothing, as long as no message was
/// started or not more than three events came in.
pub proof fn law_silent_streams_say_nothing(c: ContentModel)
    requires
        c.text.len() == 0,
        c.json.len() == 0,
        c.reasoning.len() == 0,
        c.tool_calls.len() == 0,
        forall|i: int| 0 <= i < c.events.len() ==> is_silent(#[trigger] c.events[i]),
        c.events.len() <= 3 || (forall|i: int|
            0 <= i < c.events.len() ==> (#[trigger] c.events[i]).event != Some("message_start"@)),
    ensures
        !sse_summary::is_meaningful(c),
{
    assert forall|i: int| 0 <= i < c.events.len() implies !sse_summary::event_tells(
        #[trigger] c.events[i],
    ) by {
        let e = c.events[i];
        assert(is_silent(e));
        match e.parsed_data {
            Some(data) => {
                assert(sse_summary::ends_with_usage(data) == has_usage(data));
                match data.list_field("choices"@) {
                    Some(choices) => {
                        assert forall|k: int| 0 <= k < choices.len() implies
                            !sse_summary::choice_adds(#[trigger] choices[k])
                            && !sse_summary::choice_ends(choices[k]) by {
                            assert(choice_is_silent(choices[k]));
                        }
                    },
                    None => {},
                }
            },
            None => {},
        }
    }
    assert forall|i: int| 0 <= i < c.events.len() implies (#[trigger] c.events[i]).event != Some(
        "content_block_delta"@,
    ) by {
        assert(is_silent(c.events[i]));
    }
}

/// The choice gives a reason for its end.
pub open spec fn gives_reason(choice: Json) -> bool {
    choice.field("finish_reason"@) is Some && choice.field("finish_reason"@) != Some(Json::Null)
}

/// An event ends the body of an HTTP response exactly if some choice gives a reason for its end.
pub proof fn law_choices_end_with_a_reason(e: SseEventModel, data: Json, choices: Seq<Json>)
    requires
        e.parsed_data == Some(data),
        data.field("choices"@) == Some(Json::List(choices)),
    ensures
        sse_summary::event_finishes(e) == exists|k: int|
            0 <= k < choices.len() && gives_reason(#[trigger] choices[k]),
{
    assert forall|k: int| 0 <= k < choices.len() implies sse_summary::choice_ends(
        #[trigger] choices[k],
    ) == gives_reason(choices[k]) by {}
    if sse_summary::event_finishes(e) {
        let k = choose|k: int|
            0 <= k < choices.len() && sse_summary::choice_ends(#[trigger] choices[k]);
        assert(gives_reason(choices[k]));
    }
}

/// The value for a text that may be absent.
pub open spec fn stands_for(v: Option<Json>, s: Option<Seq<char>>) -> bool {
    match s {
        Some(t) => v == Some(Json::Text(t)),
        None => v == Some(Json::Null),
    }
}

/// An event as JSON has each of its parts under its name.
pub proof fn law_events_as_json_hold_their_parts(e: SseEventModel)
    ensures
        ({
            let j = sse_summary::event_json(e);
            &&& stands_for(j.field("data"@), e.data)
            &&& stands_for(j.field("event"@), e.event)
            &&& stands_for(j.field("id"@), e.id)
            &&& stands_for(j.field("raw_data"@), e.raw_data)
            &&& j.field("parsed_data"@) == match e.parsed_data {
                Some(v) => Some(v),
                None => Some(Json::Null),
            }
            &&& j is Object && (j->Object_0).len() == 5
        }),
{
    let fields = sse_summary::event_json(e)->Object_0;
    reveal_strlit("data");
    reveal_strlit("event");
    reveal_strlit("id");
    reveal_strlit("parsed_data");
    reveal_strlit("raw_data");
    assert("data"@.len() == 4 && "event"@.len() == 5 && "id"@.len() == 2 && "parsed_data"@.len()
        == 11 && "raw_data"@.len() == 8);
    let k = assoc::keys(fields);
    assoc::lemma_index_is(k, "data"@, 0);
    assoc::lemma_index_is(k, "event"@, 1);
    assoc::lemma_index_is(k, "id"@, 2);
    assoc::lemma_index_is(k, "parsed_data"@, 3);
    assoc::lemma_index_is(k, "raw_data"@, 4);
}

/// The tool call as JSON has each of its parts under its name.
pub open spec fn is_call(j: Json, n: u64, call: ToolCallModel) -> bool {
    &&& j.field("index"@) == Some(Json::Unsigned(n))
    &&& stands_for(j.field("id"@), call.id)
    &&& stands_for(j.field("type"@), call.call_type)
    &&& j.field("function"@) is Some
    &&& stands_for((j.field("function"@)->0).field("name"@), call.function_name)
    &&& (j.field("function"@)->0).field("arguments"@) == Some(Json::Text(call.function_arguments))
}

proof fn lemma_call(n: u64, call: ToolCallModel)
    ensures
        is_call(sse_summary::tool_call_json(n, call), n, call),
{
    let j = sse_summary::tool_call_json(n, call);
    let fields = j->Object_0;
    reveal_strlit("function");
    reveal_strlit("id");
    reveal_strlit("index");
    reveal_strlit("type");
    reveal_strlit("arguments");
    reveal_strlit("name");
    assert("function"@.len() == 8 && "id"@.len() == 2 && "index"@.len() == 5 && "type"@.len() == 4
        && "arguments"@.len() == 9 && "name"@.len() == 4);
    let k = assoc::keys(fields);
    assoc::lemma_index_is(k, "function"@, 0);
    assoc::lemma_index_is(k, "id"@, 1);
    assoc::lemma_index_is(k, "index"@, 2);
    assoc::lemma_index_is(k, "type"@, 3);
    let f = (j.field("function"@)->0)->Object_0;
    let l = assoc::keys(f);
    assoc::lemma_index_is(l, "arguments"@, 0);
    assoc::lemma_index_is(l, "name"@, 1);
}

/// The list has each tool call once, with all of its parts, in the order of the indices.
pub open spec fn lists_calls(list: Seq<Json>, calls: Map<u64, ToolCallModel>) -> bool {
    exists|order: Seq<u64>| #[trigger]
        ordered::strictly_ascending(order) && order.len() == list.len() && (forall|n: u64|
            order.contains(n) == #[trigger] calls.contains_key(n)) && (forall|i: int|
            0 <= i < list.len() ==> is_call(#[trigger] list[i], order[i], calls[order[i]]))
}

proof fn lemma_lists_calls(calls: Map<u64, ToolCallModel>)
    ensures
        lists_calls(sse_summary::tool_calls_json(calls), calls),
{
    let order = ordered::ascending(calls.dom());
    let list = sse_summary::tool_calls_json(calls);
    ordered::lemma_ascending(calls.dom());
    assert forall|i: int| 0 <= i < list.len() implies is_call(
        #[trigger] list[i],
        order[i],
        calls[order[i]],
    ) by {
        lemma_call(order[i], calls[order[i]]);
    }
    assert forall|n: u64| order.contains(n) == #[trigger] calls.contains_key(n) by {
        assert(order.contains(n) <==> calls.dom().contains(n));
    }
    assert(ordered::strictly_ascending(order));
}

/// The object holds what a stream says besides its text: the JSON that came in, as a value where
/// it is one, the reasoning, and the tool calls. What the stream does not have is not there.
pub open spec fn holds_extras(j: Json, c: ContentModel) -> bool {
    &&& j.field("partial_json"@) == if c.json.len() == 0 {
        None
    } else {
        match json::parsed(c.json) {
            Some(v) => Some(v),
            None => Some(Json::Text(c.json)),
        }
    }
    &&& j.field("reasoning_content"@) == if c.reasoning.len() == 0 {
        None
    } else {
        Some(Json::Text(c.reasoning))
    }
    &&& if c.tool_calls.len() == 0 {
        j.field("tool_calls"@) is None
    } else {
        j.field("tool_calls"@) matches Some(Json::List(list)) && lists_calls(list, c.tool_calls)
    }
}

/// The JSON text of a stream without reasoning and tool calls is the JSON that came in, with
/// indentation where it is JSON. Otherwise it is one object with all that the stream says
/// besides its text.
pub proof fn law_json_texts_hold_what_was_said(c: ContentModel)
    ensures
        ({
            let t = sse_summary::json_content(c);
            if c.reasoning.len() == 0 && c.tool_calls.len() == 0 {
                &&& c.json.len() == 0 ==> t.len() == 0
                &&& json::parsed(c.json) is None ==> t == c.json
                &&& c.json.len() > 0 && json::parsed(c.json) is Some && json::pretty(
                    json::parsed(c.json)->0,
                ) is Some ==> t == json::pretty(json::parsed(c.json)->0)->0
            } else {
                exists|j: Json| #[trigger]
                    holds_extras(j, c) && (json::pretty(j) == Some(t) || (json::pretty(j) is None
                        && t.len() == 0))
            }
        }),
{
    let partial = sse_summary::partial_json(c.json);
    let fields = sse_summary::extras(c, partial);
    let j = Json::Object(fields);
    let k = assoc::keys(fields);
    reveal_strlit("partial_json");
    reveal_strlit("reasoning_content");
    reveal_strlit("tool_calls");
    assert("partial_json"@.len() == 12 && "reasoning_content"@.len() == 17 && "tool_calls"@.len()
        == 10);
    assoc::lemma_index_of(k, "partial_json"@);
    assoc::lemma_index_of(k, "reasoning_content"@);
    assoc::lemma_index_of(k, "tool_calls"@);
    lemma_lists_calls(c.tool_calls);
    let a: int = if c.json.len() > 0 {
        1
    } else {
        0
    };
    let b: int = if c.reasoning.len() > 0 {
        a + 1
    } else {
        a
    };
    if c.json.len() > 0 {
        assert(k[0] == "partial_json"@);
        assoc::lemma_index_is(k, "partial_json"@, 0);
    }
    if c.reasoning.len() > 0 {
        assert(k[a] == "reasoning_content"@);
        assoc::lemma_index_is(k, "reasoning_content"@, a);
    }
    if c.tool_calls.len() > 0 {
        assert(k[b] == "tool_calls"@);
        assoc::lemma_index_is(k, "tool_calls"@, b);
    }
    assert(holds_extras(j, c));
}

} // verus!
