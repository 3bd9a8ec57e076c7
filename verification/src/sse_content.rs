//! What the events of a stream add up to.

use crate::assoc;
use crate::json;
use crate::json::{Json, JsonValue};
use crate::ordered;
use crate::sse_event;
use crate::sse_event::{SSEEvent, SseEventModel};
use crate::sse_summary;
use crate::text;
use std::collections::BTreeMap;
use vstd::prelude::*;

verus! {

broadcast use vstd::std_specs::btree::group_btree_axioms;

/// A call of a tool, as far as it has come in.
pub struct ToolCallModel {
    pub id: Option<Seq<char>>,
    pub call_type: Option<Seq<char>>,
    pub function_name: Option<Seq<char>>,
    pub function_arguments: Seq<char>,
}

impl ToolCallModel {
    pub open spec fn empty() -> ToolCallModel {
        ToolCallModel {
            id: None,
            call_type: None,
            function_name: None,
            function_arguments: Seq::empty(),
        }
    }

    /// The type is `function`, unless another one is known.
    pub open spec fn typed(self) -> ToolCallModel {
        match self.call_type {
            Some(_) => self,
            None => ToolCallModel { call_type: Some("function"@), ..self },
        }
    }

    pub open spec fn with_id(self, id: Option<Seq<char>>) -> ToolCallModel {
        match id {
            Some(s) => ToolCallModel { id: Some(s), ..self },
            None => self,
        }
    }

    pub open spec fn with_type(self, call_type: Option<Seq<char>>) -> ToolCallModel {
        match call_type {
            Some(s) => ToolCallModel { call_type: Some(s), ..self },
            None => self,
        }
    }

    pub open spec fn with_name(self, name: Option<Seq<char>>) -> ToolCallModel {
        match name {
            Some(s) => ToolCallModel { function_name: Some(s), ..self },
            None => self,
        }
    }

    /// The call with more of its arguments.
    pub open spec fn with_more(self, arguments: Option<Seq<char>>) -> ToolCallModel {
        match arguments {
            Some(s) => ToolCallModel {
                function_arguments: self.function_arguments + s,
                ..self
            },
            None => self,
        }
    }

    /// The call with these arguments in place of those before.
    pub open spec fn with_all(self, arguments: Option<Seq<char>>) -> ToolCallModel {
        match arguments {
            Some(s) => ToolCallModel { function_arguments: s, ..self },
            None => self,
        }
    }
}

/// What the events of a stream add up to.
pub struct ContentModel {
    pub message_id: Option<Seq<char>>,
    pub text: Seq<char>,
    pub json: Seq<char>,
    pub reasoning: Seq<char>,
    pub tool_calls: Map<u64, ToolCallModel>,
    pub events: Seq<SseEventModel>,
    pub has_message_start: bool,
}

/// The value under `key`, where it is a text.
pub open spec fn text_under(fields: Seq<(Seq<char>, Json)>, key: Seq<char>) -> Option<Seq<char>> {
    match assoc::lookup(fields, key) {
        Some(v) => v.as_text(),
        None => None,
    }
}

/// The list under `key`.
pub open spec fn list_under(fields: Seq<(Seq<char>, Json)>, key: Seq<char>) -> Option<Seq<Json>> {
    match assoc::lookup(fields, key) {
        Some(v) => v.as_list(),
        None => None,
    }
}

/// The text of a delta that tells of reasoning: the first of four names that stands for a text,
/// where that is not empty.
pub open spec fn reasoning_delta(delta: Seq<(Seq<char>, Json)>) -> Option<Seq<char>> {
    let found = match text_under(delta, "reasoning_content"@) {
        Some(s) => Some(s),
        None => match text_under(delta, "reasoning"@) {
            Some(s) => Some(s),
            None => match text_under(delta, "reasoning_text"@) {
                Some(s) => Some(s),
                None => text_under(delta, "thinking"@),
            },
        },
    };
    match found {
        Some(s) => if s.len() > 0 {
            Some(s)
        } else {
            None
        },
        None => None,
    }
}

/// The type of an event of the responses API.
pub open spec fn response_type(data: Json) -> Option<Seq<char>> {
    match data.text_field("type"@) {
        Some(s) => if text::starts_with(s, "response."@) {
            Some(s)
        } else {
            None
        },
        None => None,
    }
}

/// What stands under `outer` and there under `inner`.
pub open spec fn inner_field(data: Json, outer: Seq<char>, inner: Seq<char>) -> Option<Json> {
    match data.field(outer) {
        Some(v) => v.field(inner),
        None => None,
    }
}

/// The id of the message that an event starts.
pub open spec fn start_id(e: SseEventModel) -> Option<Seq<char>> {
    match e.parsed_data {
        Some(data) => if e.event == Some("message_start"@) {
            match inner_field(data, "message"@, "id"@) {
                Some(id) => id.as_text(),
                None => None,
            }
        } else {
            None
        },
        None => None,
    }
}

/// The id that the data of an event name: their own, or that of a response.
pub open spec fn data_id(e: SseEventModel) -> Option<Seq<char>> {
    match e.parsed_data {
        Some(data) => match data.text_field("id"@) {
            Some(id) => Some(id),
            None => match data.text_field("response_id"@) {
                Some(id) => Some(id),
                None => match inner_field(data, "response"@, "id"@) {
                    Some(id) => id.as_text(),
                    None => None,
                },
            },
        },
        None => None,
    }
}

pub open spec fn first_start_id(events: Seq<SseEventModel>) -> Option<Seq<char>>
    decreases events.len(),
{
    if events.len() == 0 {
        None
    } else {
        match start_id(events[0]) {
            Some(id) => Some(id),
            None => first_start_id(events.drop_first()),
        }
    }
}

pub open spec fn first_data_id(events: Seq<SseEventModel>) -> Option<Seq<char>>
    decreases events.len(),
{
    if events.len() == 0 {
        None
    } else {
        match data_id(events[0]) {
            Some(id) => Some(id),
            None => first_data_id(events.drop_first()),
        }
    }
}

/// The id of the message that events belong to: that of a message they start, or else the first
/// one that their data name.
pub open spec fn message_id_of(events: Seq<SseEventModel>) -> Option<Seq<char>> {
    match first_start_id(events) {
        Some(id) => Some(id),
        None => first_data_id(events),
    }
}

/// What a content delta adds to the text.
pub open spec fn delta_text(delta: Json) -> Option<Seq<char>> {
    let kind = delta.text_field("type"@);
    if kind == Some("text_delta"@) {
        delta.text_field("text"@)
    } else if kind == Some("thinking_delta"@) {
        delta.text_field("thinking"@)
    } else {
        None
    }
}

impl ContentModel {
    pub open spec fn empty() -> ContentModel {
        ContentModel {
            message_id: None,
            text: Seq::empty(),
            json: Seq::empty(),
            reasoning: Seq::empty(),
            tool_calls: Map::empty(),
            events: Seq::empty(),
            has_message_start: false,
        }
    }

    pub open spec fn with_text(self, s: Option<Seq<char>>) -> ContentModel {
        match s {
            Some(t) => ContentModel { text: self.text + t, ..self },
            None => self,
        }
    }

    pub open spec fn with_json(self, s: Option<Seq<char>>) -> ContentModel {
        match s {
            Some(t) => ContentModel { json: self.json + t, ..self },
            None => self,
        }
    }

    pub open spec fn with_reasoning(self, s: Option<Seq<char>>) -> ContentModel {
        match s {
            Some(t) => ContentModel { reasoning: self.reasoning + t, ..self },
            None => self,
        }
    }

    /// The call under an index, an empty one where there is none.
    pub open spec fn tool_call(self, index: u64) -> ToolCallModel {
        if self.tool_calls.contains_key(index) {
            self.tool_calls[index]
        } else {
            ToolCallModel::empty()
        }
    }

    pub open spec fn with_tool_call(self, index: u64, call: ToolCallModel) -> ContentModel {
        ContentModel { tool_calls: self.tool_calls.insert(index, call), ..self }
    }

    /// With a piece of a tool call. Its place in the list counts where it has no index.
    pub open spec fn with_tool_piece(self, piece: Json, place: u64) -> ContentModel {
        let index = match piece.unsigned_field("index"@) {
            Some(n) => n,
            None => place,
        };
        let call = self.tool_call(index).with_id(piece.text_field("id"@)).with_type(
            piece.text_field("type"@),
        );
        self.with_tool_call(
            index,
            match piece.fields_field("function"@) {
                Some(f) => call.with_name(text_under(f, "name"@)).with_more(
                    text_under(f, "arguments"@),
                ),
                None => call,
            },
        )
    }

    pub open spec fn with_tool_pieces(self, pieces: Seq<Json>) -> ContentModel
        decreases pieces.len(),
    {
        if pieces.len() == 0 {
            self
        } else {
            self.with_tool_pieces(pieces.drop_last()).with_tool_piece(
                pieces.last(),
                (pieces.len() - 1) as u64,
            )
        }
    }

    /// With a piece of the one function call that older APIs know.
    pub open spec fn with_function_call(self, piece: Json) -> ContentModel {
        self.with_tool_call(
            0,
            self.tool_call(0).typed().with_name(piece.text_field("name"@)).with_more(
                piece.text_field("arguments"@),
            ),
        )
    }

    /// With what one choice of a completion adds.
    pub open spec fn with_choice(self, choice: Json) -> ContentModel {
        match choice.fields_field("delta"@) {
            None => self,
            Some(delta) => {
                let s = self.with_text(text_under(delta, "content"@)).with_reasoning(
                    reasoning_delta(delta),
                );
                let t = match list_under(delta, "tool_calls"@) {
                    Some(pieces) => s.with_tool_pieces(pieces),
                    None => s,
                };
                match assoc::lookup(delta, "function_call"@) {
                    Some(piece) => t.with_function_call(piece),
                    None => t,
                }
            },
        }
    }

    pub open spec fn with_choices(self, choices: Seq<Json>) -> ContentModel
        decreases choices.len(),
    {
        if choices.len() == 0 {
            self
        } else {
            self.with_choices(choices.drop_last()).with_choice(choices.last())
        }
    }

    /// With what the data of a completion API add.
    pub open spec fn with_completion(self, data: Json) -> ContentModel {
        match data.list_field("choices"@) {
            Some(choices) => self.with_choices(choices),
            None => self,
        }
    }

    /// With the arguments of a function call of the responses API: more of them, or all.
    pub open spec fn with_arguments(self, data: Json, replace: bool) -> ContentModel {
        let index = match data.unsigned_field("output_index"@) {
            Some(n) => n,
            None => 0,
        };
        let call = self.tool_call(index).typed().with_id(data.text_field("item_id"@));
        self.with_tool_call(
            index,
            if replace {
                call.with_all(data.text_field("arguments"@))
            } else {
                call.with_more(data.text_field("delta"@))
            },
        )
    }

    /// With an item of the responses API, where it is a function call.
    pub open spec fn with_item(self, data: Json) -> ContentModel {
        match data.fields_field("item"@) {
            Some(item) => if text_under(item, "type"@) == Some("function_call"@) {
                let index = match data.unsigned_field("output_index"@) {
                    Some(n) => n,
                    None => self.tool_calls.len() as u64,
                };
                let id = match text_under(item, "id"@) {
                    Some(id) => Some(id),
                    None => text_under(item, "call_id"@),
                };
                self.with_tool_call(
                    index,
                    self.tool_call(index).typed().with_id(id).with_name(
                        text_under(item, "name"@),
                    ).with_all(text_under(item, "arguments"@)),
                )
            } else {
                self
            },
            None => self,
        }
    }

    /// With what the data of the responses API add.
    pub open spec fn with_response(self, data: Json) -> ContentModel {
        let kind = response_type(data);
        if kind == Some("response.output_text.delta"@) {
            self.with_text(data.text_field("delta"@))
        } else if kind == Some("response.reasoning_text.delta"@) || kind == Some(
            "response.reasoning_summary_text.delta"@,
        ) {
            self.with_reasoning(data.text_field("delta"@))
        } else if kind == Some("response.function_call_arguments.delta"@) {
            self.with_arguments(data, false)
        } else if kind == Some("response.function_call_arguments.done"@) {
            self.with_arguments(data, true)
        } else if kind == Some("response.output_item.added"@) || kind == Some(
            "response.output_item.done"@,
        ) {
            self.with_item(data)
        } else {
            self
        }
    }

    /// With what an event of the messages API adds.
    pub open spec fn with_message(self, e: SseEventModel) -> ContentModel {
        if e.event == Some("message_start"@) {
            ContentModel { has_message_start: true, ..self }
        } else if e.event == Some("content_block_delta"@) {
            match e.parsed_data {
                Some(data) => match data.field("delta"@) {
                    Some(delta) => self.with_text(delta_text(delta)).with_json(
                        delta.text_field("partial_json"@),
                    ),
                    None => self,
                },
                None => self,
            }
        } else {
            self
        }
    }

    /// With the event itself, and its message id where none is known.
    pub open spec fn with_event(self, e: SseEventModel) -> ContentModel {
        ContentModel {
            events: self.events.push(e),
            message_id: match self.message_id {
                Some(id) => Some(id),
                None => message_id_of(seq![e]),
            },
            ..self
        }
    }

    /// With all that an event adds.
    pub open spec fn adding(self, e: SseEventModel) -> ContentModel {
        let s = self.with_event(e).with_message(e);
        match e.parsed_data {
            Some(data) => s.with_completion(data).with_response(data),
            None => s,
        }
    }

    /// With all that events add, one after the other.
    pub open spec fn adding_all(self, events: Seq<SseEventModel>) -> ContentModel
        decreases events.len(),
    {
        if events.len() == 0 {
            self
        } else {
            self.adding_all(events.drop_last()).adding(events.last())
        }
    }
}

#[derive(Debug)]
struct OpenAIToolCallAccumulator {
    id: Option<String>,
    call_type: Option<String>,
    function_name: Option<String>,
    function_arguments: String,
}

impl View for OpenAIToolCallAccumulator {
    type V = ToolCallModel;

    closed spec fn view(&self) -> ToolCallModel {
        ToolCallModel {
            id: text::optional_view(self.id),
            call_type: text::optional_view(self.call_type),
            function_name: text::optional_view(self.function_name),
            function_arguments: self.function_arguments@,
        }
    }
}

/// The characters of a text that may be absent.
pub open spec fn str_view(s: Option<&str>) -> Option<Seq<char>> {
    match s {
        Some(t) => Some(t@),
        None => None,
    }
}

impl OpenAIToolCallAccumulator {
    fn empty() -> (r: OpenAIToolCallAccumulator)
        ensures
            r@ == ToolCallModel::empty(),
    {
        OpenAIToolCallAccumulator {
            id: None,
            call_type: None,
            function_name: None,
            function_arguments: String::new(),
        }
    }

    fn set_default_type(&mut self)
        ensures
            final(self)@ == old(self)@.typed(),
    {
        if self.call_type.is_none() {
            self.call_type = Some(text::owned("function"));
        }
    }

    fn set_id(&mut self, id: Option<&str>)
        ensures
            final(self)@ == old(self)@.with_id(str_view(id)),
    {
        match id {
            Some(s) => {
                self.id = Some(text::owned(s));
            },
            None => {},
        }
    }

    fn set_type(&mut self, call_type: Option<&str>)
        ensures
            final(self)@ == old(self)@.with_type(str_view(call_type)),
    {
        match call_type {
            Some(s) => {
                self.call_type = Some(text::owned(s));
            },
            None => {},
        }
    }

    fn set_name(&mut self, name: Option<&str>)
        ensures
            final(self)@ == old(self)@.with_name(str_view(name)),
    {
        match name {
            Some(s) => {
                self.function_name = Some(text::owned(s));
            },
            None => {},
        }
    }

    fn add_arguments(&mut self, arguments: Option<&str>)
        ensures
            final(self)@ == old(self)@.with_more(str_view(arguments)),
    {
        match arguments {
            Some(s) => {
                text::push_str(&mut self.function_arguments, s);
            },
            None => {},
        }
    }

    fn set_arguments(&mut self, arguments: Option<&str>)
        ensures
            final(self)@ == old(self)@.with_all(str_view(arguments)),
    {
        match arguments {
            Some(s) => {
                self.function_arguments = text::owned(s);
            },
            None => {},
        }
    }
}

/// Adds up the events of a stream.
pub struct SSEContent {
    message_id: Option<String>,
    accumulated_text: String,
    accumulated_json: String,
    openai_reasoning: String,
    openai_tool_calls: BTreeMap<u64, OpenAIToolCallAccumulator>,
    events: Vec<SSEEvent>,
    has_message_start: bool,
}

impl View for SSEContent {
    type V = ContentModel;

    closed spec fn view(&self) -> ContentModel {
        ContentModel {
            message_id: text::optional_view(self.message_id),
            text: self.accumulated_text@,
            json: self.accumulated_json@,
            reasoning: self.openai_reasoning@,
            tool_calls: self.openai_tool_calls@.map_values(|c: OpenAIToolCallAccumulator| c@),
            events: sse_event::events_view(self.events@),
            has_message_start: self.has_message_start,
        }
    }
}

fn get_text<'a>(fields: &'a Vec<(String, JsonValue)>, key: &str) -> (r: Option<&'a str>)
    ensures
        str_view(r) == text_under(json::fields_view(fields@), key@),
{
    match json::find_field(fields, key) {
        Some(v) => v.as_str(),
        None => None,
    }
}

/// The text of a delta that tells of reasoning.
pub fn openai_reasoning_delta<'a>(delta: &'a Vec<(String, JsonValue)>) -> (r: Option<&'a str>)
    ensures
        str_view(r) == reasoning_delta(json::fields_view(delta@)),
{
    let found: Option<&'a str> = match get_text(delta, "reasoning_content") {
        Some(s) => Some(s),
        None => match get_text(delta, "reasoning") {
            Some(s) => Some(s),
            None => match get_text(delta, "reasoning_text") {
                Some(s) => Some(s),
                None => get_text(delta, "thinking"),
            },
        },
    };
    match found {
        Some(s) => {
            if s.is_empty() {
                None
            } else {
                Some(s)
            }
        },
        None => None,
    }
}

/// The type of an event of the responses API.
pub fn openai_response_event_type(data: &JsonValue) -> (r: Option<&str>)
    ensures
        str_view(r) == response_type(data@),
{
    match data.get_str("type") {
        Some(s) => {
            let all: Vec<char> = text::chars(s);
            if text::begins(all.as_slice(), "response.") {
                Some(s)
            } else {
                None
            }
        },
        None => None,
    }
}

fn get_inner<'a>(data: &'a JsonValue, outer: &str, inner: &str) -> (r: Option<&'a JsonValue>)
    ensures
        match r {
            Some(v) => inner_field(data@, outer@, inner@) == Some(v@),
            None => inner_field(data@, outer@, inner@) is None,
        },
{
    match data.get(outer) {
        Some(v) => v.get(inner),
        None => None,
    }
}

/// Whether an event has this name.
pub fn is_named(event: &SSEEvent, name: &str) -> (r: bool)
    ensures
        r == (event@.event == Some(name@)),
{
    match &event.event {
        Some(s) => text::same(s.as_str(), name),
        None => false,
    }
}

fn find_start_id<'a>(event: &'a SSEEvent) -> (r: Option<&'a str>)
    ensures
        str_view(r) == start_id(event@),
{
    match &event.parsed_data {
        Some(data) => {
            if is_named(event, "message_start") {
                match get_inner(data, "message", "id") {
                    Some(id) => id.as_str(),
                    None => None,
                }
            } else {
                None
            }
        },
        None => None,
    }
}

fn find_data_id<'a>(event: &'a SSEEvent) -> (r: Option<&'a str>)
    ensures
        str_view(r) == data_id(event@),
{
    match &event.parsed_data {
        Some(data) => match data.get_str("id") {
            Some(id) => Some(id),
            None => match data.get_str("response_id") {
                Some(id) => Some(id),
                None => match get_inner(data, "response", "id") {
                    Some(id) => id.as_str(),
                    None => None,
                },
            },
        },
        None => None,
    }
}

/// The id of the message that events belong to.
pub fn extract_message_id(events: &[SSEEvent]) -> (r: Option<String>)
    ensures
        text::optional_view(r) == message_id_of(sse_event::events_view(events@)),
{
    let ghost all = sse_event::events_view(events@);
    let mut i: usize = 0;
    assert(all.skip(0) =~= all);
    while i < events.len()
        invariant
            i <= events@.len(),
            all == sse_event::events_view(events@),
            first_start_id(all) == first_start_id(all.skip(i as int)),
        decreases events@.len() - i,
    {
        proof {
            assert(all.skip(i as int)[0] == events@[i as int]@);
            assert(all.skip(i as int).drop_first() =~= all.skip(i + 1));
        }
        match find_start_id(&events[i]) {
            Some(id) => {
                return Some(text::owned(id));
            },
            None => {},
        }
        i += 1;
    }
    let mut j: usize = 0;
    while j < events.len()
        invariant
            j <= events@.len(),
            all == sse_event::events_view(events@),
            first_start_id(all) is None,
            first_data_id(all) == first_data_id(all.skip(j as int)),
        decreases events@.len() - j,
    {
        proof {
            assert(all.skip(j as int)[0] == events@[j as int]@);
            assert(all.skip(j as int).drop_first() =~= all.skip(j + 1));
        }
        match find_data_id(&events[j]) {
            Some(id) => {
                return Some(text::owned(id));
            },
            None => {},
        }
        j += 1;
    }
    None
}

fn event_id(event: &SSEEvent) -> (r: Option<String>)
    ensures
        text::optional_view(r) == message_id_of(seq![event@]),
{
    proof {
        let one = seq![event@];
        assert(one.drop_first() =~= Seq::empty());
        reveal_with_fuel(first_start_id, 2);
        reveal_with_fuel(first_data_id, 2);
    }
    match find_start_id(event) {
        Some(id) => Some(text::owned(id)),
        None => match find_data_id(event) {
            Some(id) => Some(text::owned(id)),
            None => None,
        },
    }
}

impl SSEContent {
    pub fn empty() -> (r: SSEContent)
        ensures
            r@ == ContentModel::empty(),
    {
        let r = SSEContent {
            message_id: None,
            accumulated_text: String::new(),
            accumulated_json: String::new(),
            openai_reasoning: String::new(),
            openai_tool_calls: BTreeMap::new(),
            events: Vec::new(),
            has_message_start: false,
        };
        assert(r@.tool_calls =~= Map::empty());
        assert(r@.events =~= Seq::empty());
        r
    }

    fn add_text(&mut self, s: Option<&str>)
        ensures
            final(self)@ == old(self)@.with_text(str_view(s)),
    {
        match s {
            Some(t) => {
                text::push_str(&mut self.accumulated_text, t);
            },
            None => {},
        }
    }

    fn add_json(&mut self, s: Option<&str>)
        ensures
            final(self)@ == old(self)@.with_json(str_view(s)),
    {
        match s {
            Some(t) => {
                text::push_str(&mut self.accumulated_json, t);
            },
            None => {},
        }
    }

    fn add_reasoning(&mut self, s: Option<&str>)
        ensures
            final(self)@ == old(self)@.with_reasoning(str_view(s)),
    {
        match s {
            Some(t) => {
                text::push_str(&mut self.openai_reasoning, t);
            },
            None => {},
        }
    }

    /// Takes a call out, an empty one where there is none.
    fn take_tool_call(&mut self, index: u64) -> (r: OpenAIToolCallAccumulator)
        ensures
            r@ == old(self)@.tool_call(index),
            final(self)@ == (ContentModel {
                tool_calls: old(self)@.tool_calls.remove(index),
                ..old(self)@
            }),
    {
        let ghost before = self@;
        let r: OpenAIToolCallAccumulator = match self.openai_tool_calls.remove(&index) {
            Some(call) => call,
            None => OpenAIToolCallAccumulator::empty(),
        };
        assert(self@.tool_calls =~= before.tool_calls.remove(index));
        r
    }

    /// Puts a call back in its place.
    fn put_tool_call(&mut self, index: u64, call: OpenAIToolCallAccumulator)
        ensures
            final(self)@ == old(self)@.with_tool_call(index, call@),
    {
        let ghost before = self@;
        let ghost added = call@;
        self.openai_tool_calls.insert(index, call);
        assert(self@.tool_calls =~= before.tool_calls.insert(index, added));
    }

    fn accumulate_openai_tool_call(&mut self, piece: &JsonValue, place: u64)
        ensures
            final(self)@ == old(self)@.with_tool_piece(piece@, place),
    {
        let ghost before = self@;
        let index: u64 = match piece.get_u64("index") {
            Some(n) => n,
            None => place,
        };
        let mut call: OpenAIToolCallAccumulator = self.take_tool_call(index);
        call.set_id(piece.get_str("id"));
        call.set_type(piece.get_str("type"));
        match piece.get_object("function") {
            Some(function) => {
                call.set_name(get_text(function, "name"));
                call.add_arguments(get_text(function, "arguments"));
            },
            None => {},
        }
        let ghost kept = call@;
        self.put_tool_call(index, call);
        assert(before.tool_calls.remove(index).insert(index, kept) =~= before.tool_calls.insert(
            index,
            kept,
        ));
    }

    fn accumulate_openai_tool_calls(&mut self, pieces: &Vec<JsonValue>)
        ensures
            final(self)@ == old(self)@.with_tool_pieces(json::items_view(pieces@)),
    {
        let ghost before = self@;
        let ghost all = json::items_view(pieces@);
        let mut i: usize = 0;
        while i < pieces.len()
            invariant
                i <= pieces@.len(),
                all == json::items_view(pieces@),
                self@ == before.with_tool_pieces(all.take(i as int)),
            decreases pieces@.len() - i,
        {
            proof {
                assert(all.take(i + 1).drop_last() =~= all.take(i as int));
                assert(all.take(i + 1).last() == pieces@[i as int]@);
            }
            self.accumulate_openai_tool_call(&pieces[i], i as u64);
            i += 1;
        }
        assert(all.take(i as int) =~= all);
    }

    fn accumulate_openai_function_call(&mut self, piece: &JsonValue)
        ensures
            final(self)@ == old(self)@.with_function_call(piece@),
    {
        let ghost before = self@;
        let mut call: OpenAIToolCallAccumulator = self.take_tool_call(0);
        call.set_default_type();
        call.set_name(piece.get_str("name"));
        call.add_arguments(piece.get_str("arguments"));
        let ghost kept = call@;
        self.put_tool_call(0, call);
        assert(before.tool_calls.remove(0).insert(0, kept) =~= before.tool_calls.insert(0, kept));
    }

    fn accumulate_choice(&mut self, choice: &JsonValue)
        ensures
            final(self)@ == old(self)@.with_choice(choice@),
    {
        match choice.get_object("delta") {
            Some(delta) => {
                self.add_text(get_text(delta, "content"));
                self.add_reasoning(openai_reasoning_delta(delta));
                match json::find_field(delta, "tool_calls") {
                    Some(v) => match v.as_array() {
                        Some(pieces) => {
                            self.accumulate_openai_tool_calls(pieces);
                        },
                        None => {},
                    },
                    None => {},
                }
                match json::find_field(delta, "function_call") {
                    Some(piece) => {
                        self.accumulate_openai_function_call(piece);
                    },
                    None => {},
                }
            },
            None => {},
        }
    }

    fn accumulate_openai_content(&mut self, data: &JsonValue)
        ensures
            final(self)@ == old(self)@.with_completion(data@),
    {
        let ghost before = self@;
        let choices: &Vec<JsonValue> = match data.get_array("choices") {
            Some(choices) => choices,
            None => {
                return;
            },
        };
        let ghost all = json::items_view(choices@);
        let mut i: usize = 0;
        while i < choices.len()
            invariant
                i <= choices@.len(),
                all == json::items_view(choices@),
                self@ == before.with_choices(all.take(i as int)),
            decreases choices@.len() - i,
        {
            proof {
                assert(all.take(i + 1).drop_last() =~= all.take(i as int));
                assert(all.take(i + 1).last() == choices@[i as int]@);
            }
            self.accumulate_choice(&choices[i]);
            i += 1;
        }
        assert(all.take(i as int) =~= all);
    }

    fn accumulate_openai_response_function_arguments(&mut self, data: &JsonValue, replace: bool)
        ensures
            final(self)@ == old(self)@.with_arguments(data@, replace),
    {
        let ghost before = self@;
        let index: u64 = match data.get_u64("output_index") {
            Some(n) => n,
            None => 0,
        };
        let mut call: OpenAIToolCallAccumulator = self.take_tool_call(index);
        call.set_default_type();
        call.set_id(data.get_str("item_id"));
        if replace {
            call.set_arguments(data.get_str("arguments"));
        } else {
            call.add_arguments(data.get_str("delta"));
        }
        let ghost kept = call@;
        self.put_tool_call(index, call);
        assert(before.tool_calls.remove(index).insert(index, kept) =~= before.tool_calls.insert(
            index,
            kept,
        ));
    }

    fn accumulate_openai_response_item(&mut self, data: &JsonValue)
        ensures
            final(self)@ == old(self)@.with_item(data@),
    {
        let ghost before = self@;
        let item: &Vec<(String, JsonValue)> = match data.get_object("item") {
            Some(item) => item,
            None => {
                return;
            },
        };
        let is_call: bool = match get_text(item, "type") {
            Some(kind) => text::same(kind, "function_call"),
            None => false,
        };
        if !is_call {
            return;
        }
        let index: u64 = match data.get_u64("output_index") {
            Some(n) => n,
            None => self.openai_tool_calls.len() as u64,
        };
        proof {
            assert(before.tool_calls.dom() =~= self.openai_tool_calls@.dom());
        }
        let mut call: OpenAIToolCallAccumulator = self.take_tool_call(index);
        call.set_default_type();
        match get_text(item, "id") {
            Some(id) => {
                call.set_id(Some(id));
            },
            None => {
                call.set_id(get_text(item, "call_id"));
            },
        }
        call.set_name(get_text(item, "name"));
        call.set_arguments(get_text(item, "arguments"));
        let ghost kept = call@;
        self.put_tool_call(index, call);
        assert(before.tool_calls.remove(index).insert(index, kept) =~= before.tool_calls.insert(
            index,
            kept,
        ));
    }

    fn accumulate_openai_responses_content(&mut self, data: &JsonValue)
        ensures
            final(self)@ == old(self)@.with_response(data@),
    {
        let kind: &str = match openai_response_event_type(data) {
            Some(kind) => kind,
            None => {
                return;
            },
        };
        if text::same(kind, "response.output_text.delta") {
            self.add_text(data.get_str("delta"));
        } else if text::same(kind, "response.reasoning_text.delta") || text::same(
            kind,
            "response.reasoning_summary_text.delta",
        ) {
            self.add_reasoning(data.get_str("delta"));
        } else if text::same(kind, "response.function_call_arguments.delta") {
            self.accumulate_openai_response_function_arguments(data, false);
        } else if text::same(kind, "response.function_call_arguments.done") {
            self.accumulate_openai_response_function_arguments(data, true);
        } else if text::same(kind, "response.output_item.added") || text::same(
            kind,
            "response.output_item.done",
        ) {
            self.accumulate_openai_response_item(data);
        }
    }

    fn accumulate_message(&mut self, event: &SSEEvent)
        ensures
            final(self)@ == old(self)@.with_message(event@),
    {
        if is_named(event, "message_start") {
            self.has_message_start = true;
        } else if is_named(event, "content_block_delta") {
            match &event.parsed_data {
                Some(data) => match data.get("delta") {
                    Some(delta) => {
                        let is_text: bool = match delta.get_str("type") {
                            Some(kind) => text::same(kind, "text_delta"),
                            None => false,
                        };
                        let is_thinking: bool = match delta.get_str("type") {
                            Some(kind) => text::same(kind, "thinking_delta"),
                            None => false,
                        };
                        if is_text {
                            self.add_text(delta.get_str("text"));
                        } else if is_thinking {
                            self.add_text(delta.get_str("thinking"));
                        }
                        self.add_json(delta.get_str("partial_json"));
                    },
                    None => {},
                },
                None => {},
            }
        }
    }

    fn note_event(&mut self, event: &SSEEvent)
        ensures
            final(self)@ == old(self)@.with_event(event@),
    {
        let ghost before = self@;
        self.events.push(event.clone());
        assert(self@.events =~= before.events.push(event@));
        if self.message_id.is_none() {
            self.message_id = event_id(event);
        }
    }

    fn accumulate_event(&mut self, event: &SSEEvent)
        ensures
            final(self)@ == old(self)@.adding(event@),
    {
        self.note_event(event);
        self.accumulate_message(event);
        match &event.parsed_data {
            Some(data) => {
                self.accumulate_openai_content(data);
                self.accumulate_openai_responses_content(data);
            },
            None => {},
        }
    }

    /// Adds what events add, one after the other.
    pub fn accumulate_content(&mut self, events: &[SSEEvent])
        ensures
            final(self)@ == old(self)@.adding_all(sse_event::events_view(events@)),
    {
        let ghost before = self@;
        let ghost all = sse_event::events_view(events@);
        let mut i: usize = 0;
        while i < events.len()
            invariant
                i <= events@.len(),
                all == sse_event::events_view(events@),
                self@ == before.adding_all(all.take(i as int)),
            decreases events@.len() - i,
        {
            proof {
                assert(all.take(i + 1).drop_last() =~= all.take(i as int));
                assert(all.take(i + 1).last() == events@[i as int]@);
            }
            self.accumulate_event(&events[i]);
            i += 1;
        }
        assert(all.take(i as int) =~= all);
    }
}

impl SSEContent {
    /// Whether some event has this name.
    pub fn has_event_named(&self, name: &str) -> (r: bool)
        ensures
            r == sse_summary::has_named(self@.events, name@),
    {
        let mut i: usize = 0;
        while i < self.events.len()
            invariant
                i <= self.events@.len(),
                forall|k: int| 0 <= k < i ==> (#[trigger] self@.events[k]).event != Some(name@),
            decreases self.events@.len() - i,
        {
            if is_named(&self.events[i], name) {
                assert(self@.events[i as int].event == Some(name@));
                return true;
            }
            i += 1;
        }
        false
    }

    /// Whether the stream is complete.
    pub fn is_sse_complete(&self) -> (r: bool)
        ensures
            r == sse_summary::is_complete(self@),
    {
        let mut i: usize = 0;
        while i < self.events.len()
            invariant
                i <= self.events@.len(),
                forall|k: int|
                    0 <= k < i ==> !sse_summary::event_completes(#[trigger] self@.events[k]),
            decreases self.events@.len() - i,
        {
            if sse_summary::sse_event_completes_stream(&self.events[i]) {
                assert(sse_summary::event_completes(self@.events[i as int]));
                return true;
            }
            i += 1;
        }
        text::byte_len(self.accumulated_text.as_str()) > sse_summary::MAX_CONTENT_BYTES
            || text::byte_len(self.accumulated_json.as_str()) > sse_summary::MAX_CONTENT_BYTES
    }

    /// Whether the stream says something.
    pub fn has_meaningful_content(&self) -> (r: bool)
        ensures
            r == sse_summary::is_meaningful(self@),
    {
        proof {
            assert(self@.tool_calls.dom() =~= self.openai_tool_calls@.dom());
        }
        if !self.accumulated_text.as_str().is_empty() || !self.accumulated_json.as_str().is_empty()
            || !self.openai_reasoning.as_str().is_empty() || self.openai_tool_calls.len() > 0 {
            return true;
        }
        let mut i: usize = 0;
        while i < self.events.len()
            invariant
                i <= self.events@.len(),
                forall|k: int|
                    0 <= k < i ==> !sse_summary::event_tells(#[trigger] self@.events[k]),
            decreases self.events@.len() - i,
        {
            if sse_summary::sse_event_is_telling(&self.events[i]) {
                assert(sse_summary::event_tells(self@.events[i as int]));
                return true;
            }
            i += 1;
        }
        self.has_event_named("content_block_delta") || (self.has_event_named("message_start")
            && self.events.len() > 3)
    }

    /// The tool calls as JSON, in the order of their indices.
    fn tool_calls_to_json(&self) -> (r: Vec<JsonValue>)
        ensures
            json::items_view(r@) == sse_summary::tool_calls_json(self@.tool_calls),
    {
        let indices: Vec<u64> = ordered::sorted_keys(&self.openai_tool_calls);
        let mut out: Vec<JsonValue> = Vec::new();
        let ghost all = sse_summary::tool_calls_json(self@.tool_calls);
        proof {
            assert(self@.tool_calls.dom() =~= self.openai_tool_calls@.dom());
            assert(json::items_view(out@) =~= all.take(0));
        }
        let mut i: usize = 0;
        while i < indices.len()
            invariant
                i <= indices@.len(),
                indices@ == ordered::ascending(self@.tool_calls.dom()),
                self@.tool_calls.dom() == self.openai_tool_calls@.dom(),
                all == sse_summary::tool_calls_json(self@.tool_calls),
                json::items_view(out@) == all.take(i as int),
            decreases indices@.len() - i,
        {
            let index: u64 = indices[i];
            let ghost before = out@;
            match self.openai_tool_calls.get(&index) {
                Some(call) => {
                    let value: JsonValue = tool_call_to_json(index, call);
                    out.push(value);
                    proof {
                        assert(value@ == all[i as int]);
                        assert(json::items_view(out@) =~= json::items_view(before).push(value@));
                        assert(all.take(i + 1) =~= all.take(i as int).push(all[i as int]));
                    }
                },
                None => {
                    proof {
                        ordered::lemma_ascending(self@.tool_calls.dom());
                        assert(indices@.contains(index)) by {
                            assert(indices@[i as int] == index);
                        }
                        assert(false);
                    }
                },
            }
            i += 1;
        }
        assert(all.take(i as int) =~= all);
        out
    }

    /// What a stream says besides its text, as one JSON object. `partial` stands for the JSON that
    /// came in piece by piece.
    pub fn extras_to_json(&self, partial: JsonValue) -> (r: JsonValue)
        ensures
            r@ == Json::Object(sse_summary::extras(self@, partial@)),
    {
        proof {
            assert(self@.tool_calls.dom() =~= self.openai_tool_calls@.dom());
        }
        let mut fields: Vec<(String, JsonValue)> = Vec::new();
        assert(json::fields_view(fields@) =~= Seq::empty());
        if !self.accumulated_json.as_str().is_empty() {
            fields.push((text::owned("partial_json"), partial));
            assert(json::fields_view(fields@) =~= seq![("partial_json"@, partial@)]);
        }
        let ghost first = fields@;
        if !self.openai_reasoning.as_str().is_empty() {
            fields.push(
                (text::owned("reasoning_content"), JsonValue::Text(self.openai_reasoning.clone())),
            );
            assert(json::fields_view(fields@) =~= json::fields_view(first).push(
                ("reasoning_content"@, Json::Text(self.openai_reasoning@)),
            ));
        }
        let ghost second = fields@;
        if self.openai_tool_calls.len() > 0 {
            let calls: Vec<JsonValue> = self.tool_calls_to_json();
            proof {
                json::lemma_list_view(calls);
            }
            fields.push((text::owned("tool_calls"), JsonValue::List(calls)));
            assert(json::fields_view(fields@) =~= json::fields_view(second).push(
                (
                    "tool_calls"@,
                    Json::List(sse_summary::tool_calls_json(self@.tool_calls)),
                ),
            ));
        }
        proof {
            json::lemma_object_view(fields);
        }
        JsonValue::Object(fields)
    }

    /// The JSON text of a stream.
    pub fn merged_json_content(&self) -> (r: String)
        ensures
            r@ == sse_summary::json_content(self@),
    {
        proof {
            assert(self@.tool_calls.dom() =~= self.openai_tool_calls@.dom());
        }
        if self.openai_reasoning.as_str().is_empty() && self.openai_tool_calls.len() == 0 {
            return sse_summary::formatted_accumulated_json(self.accumulated_json.as_str());
        }
        let partial: JsonValue = match json::parse_json(self.accumulated_json.as_str()) {
            Some(v) => v,
            None => JsonValue::Text(self.accumulated_json.clone()),
        };
        match json::pretty_json(&self.extras_to_json(partial)) {
            Some(t) => t,
            None => String::new(),
        }
    }

    /// The events as JSON.
    pub fn events_to_json(&self) -> (r: Vec<JsonValue>)
        ensures
            json::items_view(r@) == self@.events.map_values(
                |e: SseEventModel| sse_summary::event_json(e),
            ),
    {
        let mut out: Vec<JsonValue> = Vec::new();
        let ghost all = self@.events.map_values(|e: SseEventModel| sse_summary::event_json(e));
        assert(json::items_view(out@) =~= all.take(0));
        let mut i: usize = 0;
        while i < self.events.len()
            invariant
                i <= self.events@.len(),
                all == self@.events.map_values(|e: SseEventModel| sse_summary::event_json(e)),
                json::items_view(out@) == all.take(i as int),
            decreases self.events@.len() - i,
        {
            let ghost before = out@;
            let value: JsonValue = sse_summary::event_to_json(&self.events[i]);
            out.push(value);
            proof {
                assert(value@ == all[i as int]);
                assert(json::items_view(out@) =~= json::items_view(before).push(value@));
                assert(all.take(i + 1) =~= all.take(i as int).push(all[i as int]));
            }
            i += 1;
        }
        assert(all.take(i as int) =~= all);
        out
    }

    /// The id of the message.
    pub fn copy_message_id(&self) -> (r: Option<String>)
        ensures
            text::optional_view(r) == self@.message_id,
    {
        match &self.message_id {
            Some(id) => Some(id.clone()),
            None => None,
        }
    }

    /// The text that came in.
    pub fn copy_text(&self) -> (r: String)
        ensures
            r@ == self@.text,
    {
        self.accumulated_text.clone()
    }

    /// The number of events.
    pub fn event_count(&self) -> (r: usize)
        ensures
            r == self@.events.len(),
    {
        self.events.len()
    }

    /// Whether a message was started.
    pub fn started(&self) -> (r: bool)
        ensures
            r == self@.has_message_start,
    {
        self.has_message_start
    }
}

fn tool_call_to_json(index: u64, call: &OpenAIToolCallAccumulator) -> (r: JsonValue)
    ensures
        r@ == sse_summary::tool_call_json(index, call@),
{
    let mut function: Vec<(String, JsonValue)> = Vec::new();
    function.push((text::owned("arguments"), JsonValue::Text(call.function_arguments.clone())));
    function.push((text::owned("name"), json::optional_text(&call.function_name)));
    proof {
        json::lemma_object_view(function);
        assert(json::fields_view(function@) =~= seq![
            ("arguments"@, Json::Text(call@.function_arguments)),
            ("name"@, json::text_or_null(call@.function_name)),
        ]);
    }
    let mut fields: Vec<(String, JsonValue)> = Vec::new();
    fields.push((text::owned("function"), JsonValue::Object(function)));
    fields.push((text::owned("id"), json::optional_text(&call.id)));
    fields.push((text::owned("index"), JsonValue::Unsigned(index)));
    fields.push((text::owned("type"), json::optional_text(&call.call_type)));
    proof {
        json::lemma_object_view(fields);
        assert(json::fields_view(fields@) =~= sse_summary::tool_call_json(
            index,
            call@,
        )->Object_0);
    }
    JsonValue::Object(fields)
}

/// Events that come in several lots add up to the same as if they came in one.
pub proof fn law_lots_add_up(c: ContentModel, a: Seq<SseEventModel>, b: Seq<SseEventModel>)
    ensures
        c.adding_all(a + b) == c.adding_all(a).adding_all(b),
    decreases b.len(),
{
    if b.len() == 0 {
        assert(a + b =~= a);
    } else {
        law_lots_add_up(c, a, b.drop_last());
        assert((a + b).drop_last() =~= a + b.drop_last());
        assert((a + b).last() == b.last());
    }
}

} // verus!
