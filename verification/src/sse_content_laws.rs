//! Laws of what streams add up to: what stands in the JSON fields of an event is what the stream
//! has more once the event is in.

use crate::assoc;
use crate::json::Json;
use crate::sse_content;
use crate::sse_content::{ContentModel, ToolCallModel};
use crate::sse_event::SseEventModel;
use crate::text;
use vstd::prelude::*;

verus! {

/// The event carries a completion with these choices and nothing of another API.
pub open spec fn carries_choices(e: SseEventModel, choices: Seq<Json>) -> bool {
    &&& e.event != Some("content_block_delta"@)
    &&& e.parsed_data is Some
    &&& (e.parsed_data->0).field("choices"@) == Some(Json::List(choices))
    &&& match (e.parsed_data->0).field("type"@) {
        Some(Json::Text(t)) => !text::starts_with(t, "response."@),
        _ => true,
    }
}

/// The event carries data of the responses API of this type and no completion.
pub open spec fn carries_response(e: SseEventModel, data: Json, kind: Seq<char>) -> bool {
    &&& e.event != Some("content_block_delta"@)
    &&& e.parsed_data == Some(data)
    &&& data.field("choices"@) is None
    &&& data.field("type"@) == Some(Json::Text(kind))
}

/// What a field tells: its text, or where it has none what was known before.
pub open spec fn told(v: Option<Json>, before: Option<Seq<char>>) -> Option<Seq<char>> {
    match v {
        Some(Json::Text(s)) => Some(s),
        _ => before,
    }
}

/// What is known of the call under an index.
pub open spec fn call_under(c: ContentModel, n: u64) -> ToolCallModel {
    if c.tool_calls.contains_key(n) {
        c.tool_calls[n]
    } else {
        ToolCallModel {
            id: None,
            call_type: None,
            function_name: None,
            function_arguments: Seq::empty(),
        }
    }
}

/// Of the tool calls only the one under `n` may have changed, and there is one.
pub open spec fn only_call_changed(before: ContentModel, n: u64, after: ContentModel) -> bool {
    &&& after.tool_calls.contains_key(n)
    &&& forall|m: u64|
        m != n ==> (#[trigger] after.tool_calls.contains_key(m) == before.tool_calls.contains_key(m)
            && call_under(after, m) == call_under(before, m))
}

/// The call under `n` has taken in a piece of a tool call: its id, type and name where it tells
/// them, and its arguments after those that were there. No other call has changed.
pub open spec fn takes_piece(before: ContentModel, n: u64, piece: Json, after: ContentModel) -> bool {
    let was = call_under(before, n);
    let now = call_under(after, n);
    &&& only_call_changed(before, n, after)
    &&& now.id == told(piece.field("id"@), was.id)
    &&& now.call_type == told(piece.field("type"@), was.call_type)
    &&& match piece.field("function"@) {
        Some(Json::Object(f)) => {
            &&& now.function_name == told(assoc::lookup(f, "name"@), was.function_name)
            &&& now.function_arguments == match assoc::lookup(f, "arguments"@) {
                Some(Json::Text(a)) => was.function_arguments + a,
                _ => was.function_arguments,
            }
        },
        _ => now.function_name == was.function_name && now.function_arguments
            == was.function_arguments,
    }
}

/// All but the tool calls is the same.
pub open spec fn same_but_calls(a: ContentModel, b: ContentModel) -> bool {
    &&& a.text == b.text
    &&& a.json == b.json
    &&& a.reasoning == b.reasoning
    &&& a.events == b.events
    &&& a.message_id == b.message_id
    &&& a.has_message_start == b.has_message_start
}

/// What choices can add to is the same.
pub open spec fn same_content(a: ContentModel, b: ContentModel) -> bool {
    &&& a.text == b.text
    &&& a.json == b.json
    &&& a.reasoning == b.reasoning
    &&& a.tool_calls == b.tool_calls
}

proof fn lemma_pieces_keep(c: ContentModel, pieces: Seq<Json>)
    ensures
        same_but_calls(c.with_tool_pieces(pieces), c),
    decreases pieces.len(),
{
    if pieces.len() > 0 {
        lemma_pieces_keep(c, pieces.drop_last());
    }
}

proof fn lemma_pieces_alike(a: ContentModel, b: ContentModel, pieces: Seq<Json>)
    requires
        same_content(a, b),
    ensures
        same_content(a.with_tool_pieces(pieces), b.with_tool_pieces(pieces)),
    decreases pieces.len(),
{
    if pieces.len() > 0 {
        lemma_pieces_alike(a, b, pieces.drop_last());
    }
}

proof fn lemma_choice_alike(a: ContentModel, b: ContentModel, choice: Json)
    requires
        same_content(a, b),
    ensures
        same_content(a.with_choice(choice), b.with_choice(choice)),
{
    match choice.fields_field("delta"@) {
        None => {},
        Some(delta) => {
            let s = a.with_text(sse_content::text_under(delta, "content"@)).with_reasoning(
                sse_content::reasoning_delta(delta),
            );
            let t = b.with_text(sse_content::text_under(delta, "content"@)).with_reasoning(
                sse_content::reasoning_delta(delta),
            );
            match sse_content::list_under(delta, "tool_calls"@) {
                Some(pieces) => {
                    lemma_pieces_alike(s, t, pieces);
                },
                None => {},
            }
        },
    }
}

proof fn lemma_choices_alike(a: ContentModel, b: ContentModel, choices: Seq<Json>)
    requires
        same_content(a, b),
    ensures
        same_content(a.with_choices(choices), b.with_choices(choices)),
    decreases choices.len(),
{
    if choices.len() > 0 {
        lemma_choices_alike(a, b, choices.drop_last());
        lemma_choice_alike(
            a.with_choices(choices.drop_last()),
            b.with_choices(choices.drop_last()),
            choices.last(),
        );
    }
}

/// An event with choices adds what the choices add to the stream before.
proof fn lemma_choices(c: ContentModel, e: SseEventModel, choices: Seq<Json>)
    requires
        carries_choices(e, choices),
    ensures
        same_content(c.adding(e), c.with_choices(choices)),
{
    let s = c.with_event(e).with_message(e);
    let data = e.parsed_data->0;
    assert(same_content(s, c));
    lemma_choices_alike(s, c, choices);
    reveal_strlit("response.");
    assert(sse_content::response_type(data) is None);
    reveal_strlit("response.output_text.delta");
}

proof fn lemma_one_choice(c: ContentModel, e: SseEventModel, choice: Json)
    requires
        carries_choices(e, seq![choice]),
    ensures
        same_content(c.adding(e), c.with_choice(choice)),
{
    let choices = seq![choice];
    lemma_choices(c, e, choices);
    assert(choices.drop_last() =~= Seq::empty());
    assert(c.with_choices(choices.drop_last()) == c);
    assert(c.with_choices(choices) == c.with_choices(choices.drop_last()).with_choice(
        choices.last(),
    ));
}

/// A completion with one choice adds the text that its delta has as content, character for
/// character, after the text that was there. One without such a text adds none.
pub proof fn law_completion_texts_are_added_as_they_are(
    c: ContentModel,
    e: SseEventModel,
    choice: Json,
    delta: Seq<(Seq<char>, Json)>,
    s: Seq<char>,
)
    requires
        carries_choices(e, seq![choice]),
        choice.field("delta"@) == Some(Json::Object(delta)),
    ensures
        assoc::lookup(delta, "content"@) == Some(Json::Text(s)) ==> c.adding(e).text == c.text + s,
        !(assoc::lookup(delta, "content"@) matches Some(Json::Text(_))) ==> c.adding(e).text
            == c.text,
        c.adding(e).json == c.json,
{
    lemma_one_choice(c, e, choice);
    let a = c.with_text(sse_content::text_under(delta, "content"@)).with_reasoning(
        sse_content::reasoning_delta(delta),
    );
    match sse_content::list_under(delta, "tool_calls"@) {
        Some(pieces) => {
            lemma_pieces_keep(a, pieces);
        },
        None => {},
    }
}

/// A completion with one choice adds the reasoning of its delta, which stands under the first of
/// four names that holds a text.
pub proof fn law_completion_reasoning_is_added_as_it_is(
    c: ContentModel,
    e: SseEventModel,
    choice: Json,
    delta: Seq<(Seq<char>, Json)>,
    s: Seq<char>,
)
    requires
        carries_choices(e, seq![choice]),
        choice.field("delta"@) == Some(Json::Object(delta)),
    ensures
        ({
            let first = assoc::lookup(delta, "reasoning_content"@);
            let second = assoc::lookup(delta, "reasoning"@);
            let third = assoc::lookup(delta, "reasoning_text"@);
            let fourth = assoc::lookup(delta, "thinking"@);
            let has = Some(Json::Text(s));
            &&& first == has ==> c.adding(e).reasoning == c.reasoning + s
            &&& first is None && second == has ==> c.adding(e).reasoning == c.reasoning + s
            &&& first is None && second is None && third == has ==> c.adding(e).reasoning
                == c.reasoning + s
            &&& first is None && second is None && third is None && fourth == has ==> c.adding(
                e,
            ).reasoning == c.reasoning + s
            &&& first is None && second is None && third is None && fourth is None ==> c.adding(
                e,
            ).reasoning == c.reasoning
        }),
{
    lemma_one_choice(c, e, choice);
    let a = c.with_text(sse_content::text_under(delta, "content"@)).with_reasoning(
        sse_content::reasoning_delta(delta),
    );
    assert(c.reasoning + Seq::<char>::empty() =~= c.reasoning);
    if s.len() == 0 {
        assert(s =~= Seq::empty());
    }
    match sse_content::list_under(delta, "tool_calls"@) {
        Some(pieces) => {
            lemma_pieces_keep(a, pieces);
        },
        None => {},
    }
}

/// A piece of a tool call that carries an index goes into the call under that index: its
/// arguments come after those that are there. All other calls stay as they are.
pub proof fn law_pieces_go_to_the_call_that_they_name(
    c: ContentModel,
    e: SseEventModel,
    choice: Json,
    delta: Seq<(Seq<char>, Json)>,
    piece: Json,
    n: u64,
)
    requires
        carries_choices(e, seq![choice]),
        choice.field("delta"@) == Some(Json::Object(delta)),
        assoc::lookup(delta, "tool_calls"@) == Some(Json::List(seq![piece])),
        assoc::lookup(delta, "function_call"@) is None,
        piece.field("index"@) == Some(Json::Unsigned(n)),
    ensures
        takes_piece(c, n, piece, c.adding(e)),
{
    lemma_one_choice(c, e, choice);
    let pieces = seq![piece];
    let a = c.with_text(sse_content::text_under(delta, "content"@)).with_reasoning(
        sse_content::reasoning_delta(delta),
    );
    assert(pieces.drop_last() =~= Seq::empty());
    assert(a.with_tool_pieces(pieces.drop_last()) == a);
    assert(a.with_tool_pieces(pieces) == a.with_tool_piece(piece, 0));
}

/// Of the pieces in a list each comes after those before it; one without an index goes into the
/// call under its place in the list. An empty list changes no call.
pub proof fn law_pieces_are_taken_in_turn(
    c: ContentModel,
    a: SseEventModel,
    b: SseEventModel,
    shorter: Json,
    longer: Json,
    few: Seq<(Seq<char>, Json)>,
    more: Seq<(Seq<char>, Json)>,
    pieces: Seq<Json>,
    piece: Json,
)
    requires
        carries_choices(a, seq![shorter]),
        carries_choices(b, seq![longer]),
        shorter.field("delta"@) == Some(Json::Object(few)),
        longer.field("delta"@) == Some(Json::Object(more)),
        assoc::lookup(few, "tool_calls"@) == Some(Json::List(pieces)),
        assoc::lookup(more, "tool_calls"@) == Some(Json::List(pieces.push(piece))),
        assoc::lookup(few, "function_call"@) is None,
        assoc::lookup(more, "function_call"@) is None,
        pieces.len() <= u64::MAX,
    ensures
        match piece.field("index"@) {
            Some(Json::Unsigned(n)) => takes_piece(c.adding(a), n, piece, c.adding(b)),
            _ => takes_piece(c.adding(a), pieces.len() as u64, piece, c.adding(b)),
        },
        pieces.len() == 0 ==> c.adding(a).tool_calls == c.tool_calls,
{
    lemma_one_choice(c, a, shorter);
    lemma_one_choice(c, b, longer);
    let x = c.with_text(sse_content::text_under(few, "content"@)).with_reasoning(
        sse_content::reasoning_delta(few),
    );
    let y = c.with_text(sse_content::text_under(more, "content"@)).with_reasoning(
        sse_content::reasoning_delta(more),
    );
    lemma_calls_alike(x, y, pieces);
    let all = pieces.push(piece);
    assert(all.drop_last() =~= pieces);
    assert(y.with_tool_pieces(all) == y.with_tool_pieces(pieces).with_tool_piece(
        piece,
        pieces.len() as u64,
    ));
}

proof fn lemma_calls_alike(a: ContentModel, b: ContentModel, pieces: Seq<Json>)
    requires
        a.tool_calls == b.tool_calls,
    ensures
        a.with_tool_pieces(pieces).tool_calls == b.with_tool_pieces(pieces).tool_calls,
    decreases pieces.len(),
{
    if pieces.len() > 0 {
        lemma_calls_alike(a, b, pieces.drop_last());
    }
}

/// A function call of an older API is the call under 0: it is a function unless something else is
/// known, has the name that is told, and its arguments come after those that are there.
pub proof fn law_function_calls_go_to_the_first_call(
    c: ContentModel,
    e: SseEventModel,
    choice: Json,
    delta: Seq<(Seq<char>, Json)>,
    piece: Json,
)
    requires
        carries_choices(e, seq![choice]),
        choice.field("delta"@) == Some(Json::Object(delta)),
        assoc::lookup(delta, "tool_calls"@) is None,
        assoc::lookup(delta, "function_call"@) == Some(piece),
    ensures
        ({
            let was = call_under(c, 0);
            let now = call_under(c.adding(e), 0);
            &&& only_call_changed(c, 0, c.adding(e))
            &&& now.id == was.id
            &&& now.call_type == if was.call_type is None {
                Some("function"@)
            } else {
                was.call_type
            }
            &&& now.function_name == told(piece.field("name"@), was.function_name)
            &&& now.function_arguments == match piece.field("arguments"@) {
                Some(Json::Text(a)) => was.function_arguments + a,
                _ => was.function_arguments,
            }
        }),
{
    lemma_one_choice(c, e, choice);
}

/// A completion with many choices adds what completions with one choice each add, in order.
pub proof fn law_choices_are_taken_in_turn(
    c: ContentModel,
    a: SseEventModel,
    x: SseEventModel,
    b: SseEventModel,
    choices: Seq<Json>,
    choice: Json,
)
    requires
        carries_choices(a, choices),
        carries_choices(x, seq![choice]),
        carries_choices(b, choices.push(choice)),
    ensures
        c.adding(b).text == c.adding(a).adding(x).text,
        c.adding(b).reasoning == c.adding(a).adding(x).reasoning,
        c.adding(b).tool_calls == c.adding(a).adding(x).tool_calls,
        choices.len() == 0 ==> c.adding(a).text == c.text && c.adding(a).reasoning == c.reasoning
            && c.adding(a).tool_calls == c.tool_calls,
{
    let all = choices.push(choice);
    lemma_choices(c, a, choices);
    lemma_choices(c, b, all);
    lemma_one_choice(c.adding(a), x, choice);
    assert(all.drop_last() =~= choices);
    lemma_choice_alike(c.with_choices(choices), c.adding(a), choice);
}

/// What the responses API adds to the text and to the reasoning is added as it is.
pub proof fn law_response_texts_are_added_as_they_are(
    c: ContentModel,
    e: SseEventModel,
    data: Json,
    kind: Seq<char>,
    s: Seq<char>,
)
    requires
        carries_response(e, data, kind),
        data.field("delta"@) == Some(Json::Text(s)),
    ensures
        c.adding(e).text == if kind == "response.output_text.delta"@ {
            c.text + s
        } else {
            c.text
        },
        c.adding(e).reasoning == if kind == "response.reasoning_text.delta"@ || kind
            == "response.reasoning_summary_text.delta"@ {
            c.reasoning + s
        } else {
            c.reasoning
        },
        c.adding(e).json == c.json,
{
    lemma_kinds();
}

/// The types of the responses API that add something begin as such types do, and differ.
proof fn lemma_kinds()
    ensures
        text::starts_with("response.output_text.delta"@, "response."@),
        text::starts_with("response.reasoning_text.delta"@, "response."@),
        text::starts_with("response.reasoning_summary_text.delta"@, "response."@),
        text::starts_with("response.function_call_arguments.delta"@, "response."@),
        text::starts_with("response.function_call_arguments.done"@, "response."@),
        text::starts_with("response.output_item.added"@, "response."@),
        text::starts_with("response.output_item.done"@, "response."@),
        "response.output_text.delta"@ != "response.reasoning_text.delta"@,
        "response.output_text.delta"@ != "response.reasoning_summary_text.delta"@,
        "response.output_text.delta"@ != "response.function_call_arguments.delta"@,
        "response.output_text.delta"@ != "response.function_call_arguments.done"@,
        "response.output_text.delta"@ != "response.output_item.added"@,
        "response.output_text.delta"@ != "response.output_item.done"@,
        "response.reasoning_text.delta"@ != "response.function_call_arguments.delta"@,
        "response.reasoning_text.delta"@ != "response.function_call_arguments.done"@,
        "response.reasoning_text.delta"@ != "response.output_item.added"@,
        "response.reasoning_text.delta"@ != "response.output_item.done"@,
        "response.reasoning_summary_text.delta"@ != "response.function_call_arguments.delta"@,
        "response.reasoning_summary_text.delta"@ != "response.function_call_arguments.done"@,
        "response.reasoning_summary_text.delta"@ != "response.output_item.added"@,
        "response.reasoning_summary_text.delta"@ != "response.output_item.done"@,
        "response.function_call_arguments.delta"@ != "response.function_call_arguments.done"@,
        "response.function_call_arguments.delta"@ != "response.output_item.added"@,
        "response.function_call_arguments.delta"@ != "response.output_item.done"@,
        "response.function_call_arguments.done"@ != "response.output_item.added"@,
        "response.function_call_arguments.done"@ != "response.output_item.done"@,
{
    reveal_strlit("response.");
    reveal_strlit("response.output_text.delta");
    reveal_strlit("response.reasoning_text.delta");
    reveal_strlit("response.reasoning_summary_text.delta");
    reveal_strlit("response.function_call_arguments.delta");
    reveal_strlit("response.function_call_arguments.done");
    reveal_strlit("response.output_item.added");
    reveal_strlit("response.output_item.done");
    let p = "response."@;
    assert("response.output_text.delta"@.subrange(0, 9) =~= p);
    assert("response.reasoning_text.delta"@.subrange(0, 9) =~= p);
    assert("response.reasoning_summary_text.delta"@.subrange(0, 9) =~= p);
    assert("response.function_call_arguments.delta"@.subrange(0, 9) =~= p);
    assert("response.function_call_arguments.done"@.subrange(0, 9) =~= p);
    assert("response.output_item.added"@.subrange(0, 9) =~= p);
    assert("response.output_item.done"@.subrange(0, 9) =~= p);
    assert("response.output_text.delta"@[9] == 'o');
    assert("response.output_text.delta"@.len() == 26);
    assert("response.reasoning_text.delta"@.len() == 29);
    assert("response.reasoning_summary_text.delta"@.len() == 37);
    assert("response.function_call_arguments.delta"@.len() == 38);
    assert("response.function_call_arguments.done"@.len() == 37);
    assert("response.function_call_arguments.done"@[9] == 'f');
    assert("response.reasoning_summary_text.delta"@[9] == 'r');
    assert("response.output_item.added"@.len() == 26);
    assert("response.output_item.added"@[16] == 'i');
    assert("response.output_text.delta"@[16] == 't');
    assert("response.output_item.done"@.len() == 25);
}

/// The place of a call of the responses API: the index that is told, or else `other`.
pub open spec fn output_place(data: Json, other: u64) -> u64 {
    match data.field("output_index"@) {
        Some(Json::Unsigned(n)) => n,
        _ => other,
    }
}

/// Arguments of a function call of the responses API go into the call under their index. A delta
/// comes after the arguments that are there; arguments that are done stand in their place.
pub proof fn law_response_arguments_go_to_their_call(
    c: ContentModel,
    e: SseEventModel,
    data: Json,
    kind: Seq<char>,
)
    requires
        carries_response(e, data, kind),
        kind == "response.function_call_arguments.delta"@ || kind
            == "response.function_call_arguments.done"@,
    ensures
        ({
            let n = output_place(data, 0);
            let was = call_under(c, n);
            let now = call_under(c.adding(e), n);
            &&& only_call_changed(c, n, c.adding(e))
            &&& now.id == told(data.field("item_id"@), was.id)
            &&& now.call_type == if was.call_type is None {
                Some("function"@)
            } else {
                was.call_type
            }
            &&& now.function_name == was.function_name
            &&& kind == "response.function_call_arguments.delta"@ ==> now.function_arguments
                == match data.field("delta"@) {
                Some(Json::Text(a)) => was.function_arguments + a,
                _ => was.function_arguments,
            }
            &&& kind == "response.function_call_arguments.done"@ ==> now.function_arguments
                == match data.field("arguments"@) {
                Some(Json::Text(a)) => a,
                _ => was.function_arguments,
            }
            &&& c.adding(e).text == c.text
            &&& c.adding(e).reasoning == c.reasoning
        }),
{
    lemma_kinds();
}

/// An item of the responses API that is a function call is the call under its index, or where
/// none is told the next one. It has the id, the name and the arguments that the item has.
/// Other items add nothing.
pub proof fn law_response_items_are_calls(
    c: ContentModel,
    e: SseEventModel,
    data: Json,
    kind: Seq<char>,
    item: Seq<(Seq<char>, Json)>,
)
    requires
        carries_response(e, data, kind),
        kind == "response.output_item.added"@ || kind == "response.output_item.done"@,
        data.field("item"@) == Some(Json::Object(item)),
    ensures
        ({
            let n = output_place(data, c.tool_calls.len() as u64);
            let was = call_under(c, n);
            let now = call_under(c.adding(e), n);
            &&& assoc::lookup(item, "type"@) == Some(Json::Text("function_call"@)) ==> {
                &&& only_call_changed(c, n, c.adding(e))
                &&& now.id == told(
                    assoc::lookup(item, "id"@),
                    told(assoc::lookup(item, "call_id"@), was.id),
                )
                &&& now.call_type == if was.call_type is None {
                    Some("function"@)
                } else {
                    was.call_type
                }
                &&& now.function_name == told(assoc::lookup(item, "name"@), was.function_name)
                &&& now.function_arguments == match assoc::lookup(item, "arguments"@) {
                    Some(Json::Text(a)) => a,
                    _ => was.function_arguments,
                }
            }
            &&& assoc::lookup(item, "type"@) != Some(Json::Text("function_call"@)) ==> c.adding(
                e,
            ).tool_calls == c.tool_calls
            &&& c.adding(e).text == c.text
            &&& c.adding(e).reasoning == c.reasoning
        }),
{
    lemma_kinds();
}

/// A content delta of the messages API adds its text, its thinking or its piece of JSON as it is.
pub proof fn law_content_deltas_are_added_as_they_are(
    c: ContentModel,
    e: SseEventModel,
    data: Json,
    delta: Json,
    s: Seq<char>,
)
    requires
        e.event == Some("content_block_delta"@),
        e.parsed_data == Some(data),
        data.field("delta"@) == Some(delta),
        data.field("choices"@) is None,
        data.field("type"@) == Some(Json::Text("content_block_delta"@)) || data.field(
            "type"@,
        ) is None,
    ensures
        ({
            let kind = delta.field("type"@);
            &&& kind == Some(Json::Text("text_delta"@)) && delta.field("text"@) == Some(
                Json::Text(s),
            ) ==> c.adding(e).text == c.text + s
            &&& kind == Some(Json::Text("thinking_delta"@)) && delta.field("thinking"@) == Some(
                Json::Text(s),
            ) ==> c.adding(e).text == c.text + s
            &&& kind != Some(Json::Text("text_delta"@)) && kind != Some(
                Json::Text("thinking_delta"@),
            ) ==> c.adding(e).text == c.text
            &&& delta.field("partial_json"@) == Some(Json::Text(s)) ==> c.adding(e).json == c.json
                + s
            &&& !(delta.field("partial_json"@) matches Some(Json::Text(_))) ==> c.adding(e).json
                == c.json
            &&& c.adding(e).reasoning == c.reasoning
            &&& c.adding(e).tool_calls == c.tool_calls
        }),
{
    reveal_strlit("response.");
    reveal_strlit("content_block_delta");
    reveal_strlit("message_start");
    reveal_strlit("text_delta");
    reveal_strlit("thinking_delta");
    assert("content_block_delta"@[0] == 'c');
    assert("response."@[0] == 'r');
    assert("content_block_delta"@.subrange(0, 9)[0] == 'c');
    assert("text_delta"@.len() != "thinking_delta"@.len());
    assert("content_block_delta"@.len() != "message_start"@.len());
}

/// Every event is kept, after those before it, and a stream has a message start exactly once an
/// event of that name is in.
pub proof fn law_events_are_kept(c: ContentModel, e: SseEventModel)
    ensures
        c.adding(e).events == c.events.push(e),
        c.adding(e).has_message_start == (c.has_message_start || e.event == Some(
            "message_start"@,
        )),
        e.parsed_data is None ==> same_content(c.adding(e), c),
{
    match e.parsed_data {
        Some(data) => {
            match data.list_field("choices"@) {
                Some(choices) => {
                    lemma_choices_keep(c.with_event(e).with_message(e), choices);
                },
                None => {},
            }
        },
        None => {},
    }
    reveal_strlit("content_block_delta");
    reveal_strlit("message_start");
    assert("content_block_delta"@.len() != "message_start"@.len());
}

proof fn lemma_choices_keep(c: ContentModel, choices: Seq<Json>)
    ensures
        c.with_choices(choices).events == c.events,
        c.with_choices(choices).message_id == c.message_id,
        c.with_choices(choices).has_message_start == c.has_message_start,
    decreases choices.len(),
{
    if choices.len() > 0 {
        let before = c.with_choices(choices.drop_last());
        lemma_choices_keep(c, choices.drop_last());
        match choices.last().fields_field("delta"@) {
            Some(delta) => {
                let s = before.with_text(
                    sse_content::text_under(delta, "content"@),
                ).with_reasoning(sse_content::reasoning_delta(delta));
                match sse_content::list_under(delta, "tool_calls"@) {
                    Some(pieces) => {
                        lemma_pieces_keep(s, pieces);
                    },
                    None => {},
                }
            },
            None => {},
        }
    }
}

/// The id that the data of an event name: `id`, or else `response_id`, or else the `id` of the
/// response.
pub open spec fn names_id(data: Json, id: Seq<char>) -> bool {
    ||| data.field("id"@) == Some(Json::Text(id))
    ||| data.field("id"@) is None && data.field("response_id"@) == Some(Json::Text(id))
    ||| data.field("id"@) is None && data.field("response_id"@) is None && data.field(
        "response"@,
    ) is Some && (data.field("response"@)->0).field("id"@) == Some(Json::Text(id))
}

/// The data of an event name no id.
pub open spec fn names_none(e: SseEventModel) -> bool {
    e.parsed_data is None || {
        &&& (e.parsed_data->0).field("id"@) is None
        &&& (e.parsed_data->0).field("response_id"@) is None
        &&& (e.parsed_data->0).field("response"@) is None
    }
}

/// Events belong to the first message that they start; where they start none, to the first one
/// that their data name.
pub proof fn law_events_name_their_message(
    events: Seq<SseEventModel>,
    i: int,
    data: Json,
    message: Json,
    id: Seq<char>,
)
    requires
        0 <= i < events.len(),
        events[i].parsed_data == Some(data),
    ensures
        events[i].event == Some("message_start"@) && data.field("message"@) == Some(message)
            && message.field("id"@) == Some(Json::Text(id)) && (forall|k: int|
            0 <= k < i ==> (#[trigger] events[k]).event != Some("message_start"@))
            ==> sse_content::message_id_of(events) == Some(id),
        (forall|k: int|
            0 <= k < events.len() ==> (#[trigger] events[k]).event != Some("message_start"@))
            && names_id(data, id) && (forall|k: int|
            0 <= k < i ==> names_none(#[trigger] events[k])) ==> sse_content::message_id_of(events)
            == Some(id),
{
    if forall|k: int| 0 <= k < i ==> (#[trigger] events[k]).event != Some("message_start"@) {
        lemma_start_id(events, i);
    }
    if forall|k: int|
        0 <= k < events.len() ==> (#[trigger] events[k]).event != Some("message_start"@) {
        lemma_no_start_id(events);
        if forall|k: int| 0 <= k < i ==> names_none(#[trigger] events[k]) {
            lemma_data_id(events, i);
        }
    }
}

proof fn lemma_start_id(events: Seq<SseEventModel>, i: int)
    requires
        0 <= i < events.len(),
        forall|k: int| 0 <= k < i ==> (#[trigger] events[k]).event != Some("message_start"@),
    ensures
        sse_content::start_id(events[i]) is Some ==> sse_content::first_start_id(events)
            == sse_content::start_id(events[i]),
    decreases i,
{
    if i > 0 {
        let rest = events.drop_first();
        assert(events[0].event != Some("message_start"@));
        assert forall|k: int| 0 <= k < i - 1 implies (#[trigger] rest[k]).event != Some(
            "message_start"@,
        ) by {
            assert(rest[k] == events[k + 1]);
        }
        assert(rest[i - 1] == events[i]);
        lemma_start_id(rest, i - 1);
    }
}

proof fn lemma_no_start_id(events: Seq<SseEventModel>)
    requires
        forall|k: int|
            0 <= k < events.len() ==> (#[trigger] events[k]).event != Some("message_start"@),
    ensures
        sse_content::first_start_id(events) is None,
    decreases events.len(),
{
    if events.len() > 0 {
        let rest = events.drop_first();
        assert(events[0].event != Some("message_start"@));
        assert forall|k: int| 0 <= k < rest.len() implies (#[trigger] rest[k]).event != Some(
            "message_start"@,
        ) by {
            assert(rest[k] == events[k + 1]);
        }
        lemma_no_start_id(rest);
    }
}

proof fn lemma_data_id(events: Seq<SseEventModel>, i: int)
    requires
        0 <= i < events.len(),
        forall|k: int| 0 <= k < i ==> names_none(#[trigger] events[k]),
    ensures
        sse_content::data_id(events[i]) is Some ==> sse_content::first_data_id(events)
            == sse_content::data_id(events[i]),
    decreases i,
{
    if i > 0 {
        let rest = events.drop_first();
        assert(names_none(events[0]));
        assert forall|k: int| 0 <= k < i - 1 implies names_none(#[trigger] rest[k]) by {
            assert(rest[k] == events[k + 1]);
        }
        assert(rest[i - 1] == events[i]);
        lemma_data_id(rest, i - 1);
    }
}

/// A stream keeps the message id that it has; without one it takes that of the next event that
/// names one.
pub proof fn law_message_ids_stay(c: ContentModel, e: SseEventModel, data: Json, id: Seq<char>)
    ensures
        c.message_id is Some ==> c.adding(e).message_id == c.message_id,
        c.message_id is None && e.event != Some("message_start"@) && e.parsed_data == Some(data)
            && names_id(data, id) ==> c.adding(e).message_id == Some(id),
        c.message_id is None && e.event != Some("message_start"@) && names_none(e) ==> c.adding(
            e,
        ).message_id is None,
        c.message_id is None && e.event == Some("message_start"@) && e.parsed_data == Some(data)
            && data.field("message"@) is Some && (data.field("message"@)->0).field("id"@) == Some(
            Json::Text(id),
        ) ==> c.adding(e).message_id == Some(id),
{
    match e.parsed_data {
        Some(d) => {
            match d.list_field("choices"@) {
                Some(choices) => {
                    lemma_choices_keep(c.with_event(e).with_message(e), choices);
                },
                None => {},
            }
        },
        None => {},
    }
    let one = seq![e];
    assert(one.drop_first() =~= Seq::empty());
    assert(sse_content::first_start_id(one.drop_first()) is None);
    assert(sse_content::first_data_id(one.drop_first()) is None);
    assert(one[0] == e);
}

} // verus!
