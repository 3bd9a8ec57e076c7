//! Laws of texts with server-sent events: the sizes of chunks are left out, the marks of such
//! texts are known, and a usage is found on its own.

use crate::assoc;
use crate::json;
use crate::json::Json;
use crate::json_scan;
use crate::json_scan_laws;
use crate::json_scan_laws::Inside;
use crate::sse_event;
use crate::sse_event_laws;
use crate::text;
use vstd::prelude::*;

verus! {

/// The size of a chunk that is not empty, as it is written: up to eight hexadecimal digits, the
/// first of them not zero.
pub open spec fn is_size(s: Seq<char>) -> bool {
    &&& 0 < s.len() <= 8
    &&& s[0] != '0'
    &&& forall|i: int|
        0 <= i < s.len() ==> ('0' <= #[trigger] s[i] <= '9' || 'a' <= s[i] <= 'f' || 'A' <= s[i]
            <= 'F')
}

/// The text has no carriage return.
pub open spec fn is_content(s: Seq<char>) -> bool {
    forall|i: int| 0 <= i < s.len() ==> #[trigger] s[i] != '\r'
}

spec fn power(n: nat) -> nat
    decreases n,
{
    if n == 0 {
        1
    } else {
        16 * power((n - 1) as nat)
    }
}

proof fn lemma_hex_value(s: Seq<char>)
    requires
        forall|i: int| 0 <= i < s.len() ==> text::is_hex_digit(#[trigger] s[i]),
    ensures
        text::hex_value(s) < power(s.len()),
        s.len() > 0 && s[0] != '0' ==> text::hex_value(s) > 0,
    decreases s.len(),
{
    if s.len() > 0 {
        let t = s.drop_last();
        assert forall|i: int| 0 <= i < t.len() implies text::is_hex_digit(#[trigger] t[i]) by {
            assert(t[i] == s[i]);
        }
        lemma_hex_value(t);
        assert(text::is_hex_digit(s[s.len() - 1]));
        assert(text::hex_digit_value(s.last()) < 16);
        if t.len() > 0 {
            assert(t[0] == s[0]);
        }
    }
}

proof fn lemma_size(s: Seq<char>)
    requires
        is_size(s),
    ensures
        text::chunk_size(text::trim(s)) matches Some(n) && n > 0,
        is_content(s),
{
    let none = Seq::<char>::empty();
    assert forall|i: int| 0 <= i < s.len() implies text::is_hex_digit(#[trigger] s[i])
        && !text::is_whitespace(s[i]) && s[i] != '\r' by {}
    assert(text::is_hex_digit(s[0]) && text::is_hex_digit(s[s.len() - 1]));
    assert(none + s + none =~= s);
    text::law_trimming_takes_white_space_off(none, s, none);
    lemma_hex_value(s);
    reveal_with_fuel(power, 9);
    assert(power(8) == 0x1_0000_0000);
    assert(power(s.len()) <= power(8)) by {
        lemma_power(s.len(), 8);
    }
}

proof fn lemma_power(a: nat, b: nat)
    requires
        a <= b,
    ensures
        power(a) <= power(b),
    decreases b,
{
    if a < b {
        lemma_power(a, (b - 1) as nat);
    }
}

/// A text without carriage returns is one piece, before a line end the first piece.
proof fn lemma_first_piece(x: Seq<char>, y: Seq<char>)
    requires
        is_content(x),
    ensures
        text::split(x + "\r\n"@ + y, "\r\n"@) == seq![x] + text::split(y, "\r\n"@),
        text::split(x, "\r\n"@) == seq![x],
{
    sse_event_laws::lemma_line_ends();
    let sep = seq!['\r', '\n'];
    let s = x + sep + y;
    let n = x.len() as int;
    assert(s.subrange(n, n + 2) =~= sep);
    assert forall|j: int| 0 <= j < n implies !text::occurs_at(s, sep, j) by {
        if text::occurs_at(s, sep, j) {
            assert(s.subrange(j, j + 2)[0] == s[j]);
            assert(s[j] == x[j]);
        }
    }
    text::lemma_least(s, sep, n);
    assert(s.take(n) =~= x);
    assert(s.skip(n + 2) =~= y);
    if text::contains(x, sep) {
        let k = choose|k: int| text::occurs_at(x, sep, k);
        assert(x.subrange(k, k + 2)[0] == x[k]);
    }
    text::lemma_absent(x, sep);
}

/// Where lines come before, the rest is read as it is without them.
proof fn lemma_later_lines(before: Seq<Seq<char>>, lines: Seq<Seq<char>>, i: int)
    requires
        0 <= i,
    ensures
        sse_event::chunk_lines(before + lines, before.len() + i) == sse_event::chunk_lines(
            lines,
            i,
        ),
    decreases lines.len() - i,
{
    let all = before + lines;
    let n = before.len() as int;
    if i < lines.len() {
        assert(all[n + i] == lines[i]);
        lemma_later_lines(before, lines, i + 1);
        if i + 1 < lines.len() {
            lemma_later_lines(before, lines, i + 2);
            assert(all[n + i + 1] == lines[i + 1]);
        }
    }
}

/// The lines of a chunk and of what follows.
proof fn lemma_chunk(size: Seq<char>, line: Seq<char>, rest: Seq<char>)
    requires
        is_size(size),
        is_content(line),
    ensures
        sse_event::chunk_lines(
            text::split(size + "\r\n"@ + line + "\r\n"@ + rest, "\r\n"@),
            0,
        ) == seq![line] + sse_event::chunk_lines(text::split(rest, "\r\n"@), 0),
{
    lemma_size(size);
    let crlf = "\r\n"@;
    let more = text::split(rest, crlf);
    assert(size + crlf + line + crlf + rest =~= size + crlf + (line + crlf + rest));
    lemma_first_piece(size, line + crlf + rest);
    lemma_first_piece(line, rest);
    let all = seq![size] + (seq![line] + more);
    let two = seq![size, line];
    assert(all =~= two + more);
    lemma_later_lines(two, more, 0);
    assert(all[0] == size && all[1] == line);
}

/// The content of a chunk is what stands between its size and its line end. Where another chunk
/// follows its content comes on a new line; the chunk of size zero ends all.
pub proof fn law_contents_of_chunks_are_joined(
    size: Seq<char>,
    line: Seq<char>,
    next_size: Seq<char>,
    next_line: Seq<char>,
    rest: Seq<char>,
)
    requires
        is_size(size),
        is_content(line),
        is_size(next_size),
        is_content(next_line),
    ensures
        ({
            let chunk = size + "\r\n"@ + line + "\r\n"@;
            let next = next_size + "\r\n"@ + next_line + "\r\n"@ + rest;
            &&& sse_event::without_sizes(chunk + ("0"@ + "\r\n"@ + rest)) == line
            &&& sse_event::without_sizes(chunk + next) == line + "\n"@ + sse_event::without_sizes(
                next,
            )
            &&& !text::is_blank(line) ==> sse_event::events_in(chunk + ("0"@ + "\r\n"@ + rest))
                == sse_event::events_in_chunk(line)
        }),
{
    let crlf = "\r\n"@;
    let next = next_size + crlf + next_line + crlf + rest;
    lemma_chunk(size, line, next);
    lemma_chunk(next_size, next_line, rest);
    let after = sse_event::chunk_lines(text::split(next, crlf), 0);
    let all = seq![line] + after;
    assert(all.len() > 1);
    text::lemma_join_first(all, "\n"@);
    assert(all.drop_first() =~= after);
    let last = "0"@ + crlf + rest;
    lemma_chunk(size, line, last);
    reveal_strlit("0");
    let zero = "0"@;
    assert(zero =~= seq!['0']);
    lemma_first_piece(zero, rest);
    let lines = text::split(last, crlf);
    assert(lines[0] == zero);
    let none = Seq::<char>::empty();
    assert(none + zero + none =~= zero);
    text::law_trimming_takes_white_space_off(none, zero, none);
    assert(zero.drop_last() =~= none);
    assert(text::hex_value(zero.drop_last()) == 0);
    assert(text::hex_value(zero) == 0);
    assert(text::chunk_size(zero) == Some(0nat));
    assert(sse_event::chunk_lines(lines, 0) =~= Seq::empty());
    assert(seq![line] + sse_event::chunk_lines(lines, 0) =~= seq![line]);
}

proof fn lemma_hex_value_least(s: Seq<char>)
    requires
        s.len() > 0,
        forall|i: int| 0 <= i < s.len() ==> text::is_hex_digit(#[trigger] s[i]),
        s[0] != '0',
    ensures
        text::hex_value(s) >= power((s.len() - 1) as nat),
    decreases s.len(),
{
    let t = s.drop_last();
    assert(text::is_hex_digit(s[s.len() - 1]));
    if t.len() > 0 {
        assert forall|i: int| 0 <= i < t.len() implies text::is_hex_digit(#[trigger] t[i]) by {
            assert(t[i] == s[i]);
        }
        assert(t[0] == s[0]);
        lemma_hex_value_least(t);
        assert(power((s.len() - 1) as nat) == 16 * power((t.len() - 1) as nat));
    } else {
        assert(text::hex_value(t) == 0);
        assert(text::hex_digit_value(s[0]) >= 1);
    }
}

/// A size of more digits than fit ends all, as zero does.
pub proof fn law_sizes_that_do_not_fit_end_all(size: Seq<char>, rest: Seq<char>)
    requires
        size.len() > 8,
        size[0] != '0',
        forall|i: int|
            0 <= i < size.len() ==> ('0' <= #[trigger] size[i] <= '9' || 'a' <= size[i] <= 'f' || 'A'
                <= size[i] <= 'F'),
    ensures
        sse_event::without_sizes(size + "\r\n"@ + rest).len() == 0,
{
    let none = Seq::<char>::empty();
    assert forall|i: int| 0 <= i < size.len() implies text::is_hex_digit(#[trigger] size[i])
        && !text::is_whitespace(size[i]) && size[i] != '\r' by {}
    assert(text::is_hex_digit(size[0]) && text::is_hex_digit(size[size.len() - 1]));
    assert(none + size + none =~= size);
    text::law_trimming_takes_white_space_off(none, size, none);
    lemma_hex_value_least(size);
    lemma_power(8, (size.len() - 1) as nat);
    reveal_with_fuel(power, 9);
    assert(power(8) == 0x1_0000_0000);
    assert(text::chunk_size(size) == Some(0nat));
    lemma_first_piece(size, rest);
    let lines = text::split(size + "\r\n"@ + rest, "\r\n"@);
    assert(lines[0] == size);
    assert(sse_event::chunk_lines(lines, 0) =~= Seq::empty());
    assert(text::join(Seq::empty(), "\n"@) =~= none);
}

/// The text stands on one line and is no hexadecimal number.
pub open spec fn is_no_size(s: Seq<char>, i: int) -> bool {
    &&& is_content(s)
    &&& 0 <= i < s.len()
    &&& !('0' <= s[i] <= '9') && !('a' <= s[i] <= 'f') && !('A' <= s[i] <= 'F')
    &&& !text::is_whitespace(s[0]) && !text::is_whitespace(s.last())
}

/// A line that is no size is left out before the first chunk, and a text without sizes is read as
/// it is.
pub proof fn law_other_lines_have_no_size(s: Seq<char>, i: int, blank: Seq<char>, rest: Seq<char>)
    requires
        is_no_size(s, i),
        text::is_blank(blank),
        is_content(blank),
    ensures
        sse_event::without_sizes(s + blank + "\r\n"@ + rest) == sse_event::without_sizes(rest),
        sse_event::events_in(s + blank) == sse_event::events_in_chunk(s + blank),
{
    let none = Seq::<char>::empty();
    let x = s + blank;
    assert(none + s + blank =~= x);
    text::law_trimming_takes_white_space_off(none, s, blank);
    assert forall|k: int| 0 <= k < x.len() implies #[trigger] x[k] != '\r' by {
        if k < s.len() {
            assert(x[k] == s[k]);
        } else {
            assert(x[k] == blank[k - s.len()]);
        }
    }
    assert(!text::is_hex_digit(s[i]));
    assert(text::chunk_size(s) is None);
    lemma_first_piece(x, rest);
    let more = text::split(rest, "\r\n"@);
    lemma_later_lines(seq![x], more, 0);
    assert((seq![x] + more)[0] == x);
    let one = seq![x];
    assert(one[0] == x);
    assert(sse_event::chunk_lines(one, 1) =~= Seq::empty());
    assert(sse_event::chunk_lines(one, 0) =~= Seq::empty());
    assert(text::join(Seq::empty(), "\n"@) =~= none);
}

/// A text with an event and data, with data before a blank line, or with the type of such texts
/// holds server-sent events.
pub proof fn law_marks_of_server_sent_events(a: Seq<char>, b: Seq<char>, c: Seq<char>)
    ensures
        sse_event::looks_like_sse(a + "event:"@ + b + "data:"@ + c),
        sse_event::looks_like_sse(a + "data:"@ + b + "event:"@ + c),
        sse_event::looks_like_sse(a + "data:"@ + b + "\n\n"@ + c),
        sse_event::looks_like_sse(a + "data:"@ + b + "\r\n\r\n"@ + c),
        sse_event::looks_like_sse(a + "text/event-stream"@ + b),
        sse_event::looks_like_sse(a + "Transfer-Encoding: chunked"@ + b + "data:"@ + c),
        sse_event::looks_like_sse(a + "Transfer-Encoding: chunked"@ + b + "event:"@ + c),
{
    lemma_two_parts(a, "event:"@, b, "data:"@, c);
    lemma_two_parts(a, "data:"@, b, "event:"@, c);
    lemma_two_parts(a, "data:"@, b, "\n\n"@, c);
    lemma_two_parts(a, "data:"@, b, "\r\n\r\n"@, c);
    text::lemma_contains_around(a, "text/event-stream"@, b);
    lemma_two_parts(a, "Transfer-Encoding: chunked"@, b, "data:"@, c);
    lemma_two_parts(a, "Transfer-Encoding: chunked"@, b, "event:"@, c);
}

proof fn lemma_two_parts(a: Seq<char>, p: Seq<char>, b: Seq<char>, q: Seq<char>, c: Seq<char>)
    ensures
        text::contains(a + p + b + q + c, p),
        text::contains(a + p + b + q + c, q),
{
    assert(a + p + b + q + c =~= a + p + (b + q + c));
    text::lemma_contains_around(a, p, b + q + c);
    text::lemma_contains_around(a + p + b, q, c);
}

/// A text without those marks holds none.
pub proof fn law_other_texts_hold_no_events(data: Seq<char>)
    requires
        !text::contains(data, "text/event-stream"@),
        !text::contains(data, "data:"@),
        !text::contains(data, "event:"@) || !text::contains(data, "Transfer-Encoding: chunked"@),
    ensures
        !sse_event::looks_like_sse(data),
{
}

/// Data without a blank line, an event or the type of such texts hold no events either.
pub proof fn law_data_alone_are_no_events(data: Seq<char>)
    requires
        !text::contains(data, "text/event-stream"@),
        !text::contains(data, "event:"@),
        !text::contains(data, "Transfer-Encoding: chunked"@),
        !text::contains(data, "\n\n"@),
        !text::contains(data, "\r\n\r\n"@),
    ensures
        !sse_event::looks_like_sse(data),
{
}

/// A usage that stands in a text on its own is an event that stops the message: it carries the
/// usage as it is written, where that counts tokens, and the model that the text names.
pub proof fn law_usages_are_found(
    a: Seq<char>,
    gap: Seq<char>,
    b: Inside,
    rest: Seq<char>,
    usage: Json,
)
    requires
        !text::contains(a + "\"usageMetadata\""@.drop_last(), "\"usageMetadata\""@),
        forall|i: int| 0 <= i < gap.len() ==> #[trigger] gap[i] != '{',
        json_scan_laws::is_plain(b),
        json::parsed(seq!['{'] + json_scan_laws::written(b) + seq!['}']) == Some(usage),
    ensures
        ({
            let object = seq!['{'] + json_scan_laws::written(b) + seq!['}'];
            let data = a + "\"usageMetadata\""@ + gap + object + rest;
            let found = sse_event::usage_fragment(data);
            let version = json_scan::string_field(data, "modelVersion"@);
            let model = json_scan::string_field(data, "model"@);
            &&& found is Some == (usage.field("promptTokenCount"@) is Some || usage.field(
                "candidatesTokenCount"@,
            ) is Some || usage.field("totalTokenCount"@) is Some)
            &&& found is Some ==> {
                let e = found->0;
                &&& e.event == Some("message_stop"@)
                &&& e.data is None && e.id is None && e.raw_data is None
                &&& e.parsed_data is Some
                &&& (e.parsed_data->0).field("usageMetadata"@) == Some(usage)
                &&& (e.parsed_data->0).field("modelVersion"@) == match version {
                    Some(m) => Some(Json::Text(m)),
                    None => match model {
                        Some(m) => Some(Json::Text(m)),
                        None => None,
                    },
                }
            }
        }),
{
    let key = "\"usageMetadata\""@;
    reveal_strlit("\"usageMetadata\"");
    assert forall|i: int| 0 <= i < key.len() implies #[trigger] key[i] != '{' by {}
    json_scan_laws::law_objects_are_found_whole(a, key, gap, b, rest);
    reveal_strlit("usageMetadata");
    reveal_strlit("modelVersion");
    let data = a + key + gap + (seq!['{'] + json_scan_laws::written(b) + seq!['}']) + rest;
    let found = sse_event::usage_fragment(data);
    if found is Some {
        let fields = ((found->0).parsed_data->0)->Object_0;
        let k = assoc::keys(fields);
        assoc::lemma_index_of(k, "modelVersion"@);
        assoc::lemma_index_of(k, "usageMetadata"@);
        assert("usageMetadata"@.len() == 13 && "modelVersion"@.len() == 12);
        if sse_event::model_in(data) is Some {
            assert(k[0] == "modelVersion"@ && k[1] == "usageMetadata"@);
            assoc::lemma_index_is(k, "usageMetadata"@, 1);
            assoc::lemma_index_is(k, "modelVersion"@, 0);
        } else {
            assert(k[0] == "usageMetadata"@);
            assoc::lemma_index_is(k, "usageMetadata"@, 0);
        }
    }
}

} // verus!
