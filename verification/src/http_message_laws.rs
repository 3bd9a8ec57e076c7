//! Laws of HTTP/1 messages: what is written into a message is read from it.

use crate::assoc;
use crate::bytes;
use crate::http_message;
use crate::http_message::{HTTPMessageType, MessageModel};
use crate::json::Json;
use crate::ssl_merger_laws;
use crate::text;
use vstd::prelude::*;

verus! {

/// The first line of a text is the first line of its head.
proof fn lemma_first_head_line(line: Seq<char>, rest: Seq<char>)
    requires
        !text::contains(line, "\r\n"@),
        rest.len() == 0 || text::starts_with(rest, "\r\n"@),
    ensures
        http_message::head_lines(line + rest).len() > 0,
        http_message::head_lines(line + rest)[0] == line,
{
    let s = line + rest;
    let n = line.len() as int;
    ssl_merger_laws::lemma_blank_line(s);
    text::lemma_find(s, "\r\n\r\n"@);
    if rest.len() > 0 {
        let t = rest.subrange(0, 2);
        assert(t[0] == rest[0] && t[1] == rest[1]);
        assert(s[n] == '\r' && s[n + 1] == '\n');
    }
    match text::find(s, "\r\n\r\n"@) {
        None => {
            ssl_merger_laws::lemma_line_and_tail(line, rest);
        },
        Some(i) => {
            assert(s[i] == '\r' && s[i + 1] == '\n');
            if i < n {
                assert(s[i] == line[i]);
                if i + 1 < n {
                    assert(s[i + 1] == line[i + 1]);
                    ssl_merger_laws::lemma_no_line_end(line, i);
                }
            }
            assert(i >= n);
            assert(i != n + 1);
            let tail = rest.take(i - n);
            assert(s.take(i) =~= line + tail);
            if tail.len() > 0 {
                assert(tail.subrange(0, 2) =~= rest.subrange(0, 2));
            }
            ssl_merger_laws::lemma_line_and_tail(line, tail);
        },
    }
}

/// A line is cut at its first space.
proof fn lemma_cut(x: Seq<char>, y: Seq<char>)
    requires
        forall|i: int| 0 <= i < x.len() ==> #[trigger] x[i] != ' ',
    ensures
        http_message::cut(x + " "@ + y) == (x, Some(y)),
        http_message::cut(x) == (x, None::<Seq<char>>),
{
    reveal_strlit(" ");
    assert(" "@ =~= seq![' ']);
    let s = x + " "@ + y;
    let n = x.len() as int;
    text::lemma_char_positions(s, ' ');
    text::lemma_char_positions(x, ' ');
    assert(s[n] == ' ');
    assert forall|j: int| 0 <= j < n implies !text::occurs_at(s, seq![' '], j) by {
        assert(s[j] == x[j]);
    }
    text::lemma_least(s, seq![' '], n);
    assert(s.take(n) =~= x);
    assert(s.skip(n + 1) =~= y);
    text::lemma_absent(x, seq![' ']);
    if text::contains(x, seq![' ']) {
        let j = choose|j: int| text::occurs_at(x, seq![' '], j);
        assert(x[j] == ' ');
    }
}

/// One of the methods that requests have.
pub open spec fn is_common_method(m: Seq<char>) -> bool {
    m == "GET"@ || m == "POST"@ || m == "PUT"@ || m == "DELETE"@ || m == "HEAD"@ || m
        == "OPTIONS"@ || m == "PATCH"@
}

pub open spec fn has_no_space(s: Seq<char>) -> bool {
    forall|i: int| 0 <= i < s.len() ==> #[trigger] s[i] != ' '
}

proof fn lemma_methods(m: Seq<char>, rest: Seq<char>)
    requires
        is_common_method(m),
    ensures
        has_no_space(m),
        !text::starts_with(m + rest, "HTTP/"@),
{
    reveal_strlit("GET");
    reveal_strlit("POST");
    reveal_strlit("PUT");
    reveal_strlit("DELETE");
    reveal_strlit("HEAD");
    reveal_strlit("OPTIONS");
    reveal_strlit("PATCH");
    reveal_strlit("HTTP/");
    let s = m + rest;
    assert(m.len() >= 3);
    assert(s[0] == m[0] && s[1] == m[1]);
    if text::starts_with(s, "HTTP/"@) {
        assert(s.subrange(0, 5)[0] == s[0] && s.subrange(0, 5)[1] == s[1]);
    }
}

/// A request is read as it is written: a method, a path without a space and a version, with one
/// space between each two, are the method, the path and the protocol of the message. All of the
/// path is kept. Nothing, or a line end and anything, may follow.
pub proof fn law_request_lines_are_read_back(
    method: Seq<char>,
    path: Seq<char>,
    version: Seq<char>,
    rest: Seq<char>,
)
    requires
        is_common_method(method),
        has_no_space(path),
        text::starts_with(version, "HTTP/"@),
        !text::contains(method + " "@ + (path + " "@ + version), "\r\n"@),
        rest.len() == 0 || text::starts_with(rest, "\r\n"@),
    ensures
        match http_message::message_in(method + " "@ + (path + " "@ + version) + rest) {
            Some(m) => {
                &&& m.message_type == HTTPMessageType::Request
                &&& m.first_line == method + " "@ + (path + " "@ + version)
                &&& m.method == Some(method)
                &&& m.path == Some(path)
                &&& m.protocol == Some(version)
                &&& m.status_code is None
                &&& m.status_text is None
                &&& m.raw_data == method + " "@ + (path + " "@ + version) + rest
            },
            None => false,
        },
{
    let line = method + " "@ + (path + " "@ + version);
    lemma_first_head_line(line, rest);
    lemma_methods(method, " "@ + (path + " "@ + version));
    assert(method + (" "@ + (path + " "@ + version)) =~= line);
    lemma_cut(method, path + " "@ + version);
    lemma_cut(path, version);
}

/// Every request that is read is its first line: its method, path and protocol, with one space
/// between each two. The text begins with that line.
pub proof fn law_requests_are_their_first_line(data: Seq<char>)
    requires
        http_message::message_in(data) is Some,
        (http_message::message_in(data)->0).message_type == HTTPMessageType::Request,
    ensures
        ({
            let m = http_message::message_in(data)->0;
            &&& m.method is Some && is_common_method(m.method->0)
            &&& m.path is Some && has_no_space(m.path->0)
            &&& m.protocol is Some && text::starts_with(m.protocol->0, "HTTP/"@)
            &&& m.first_line == m.method->0 + " "@ + (m.path->0 + " "@ + m.protocol->0)
            &&& text::starts_with(data, m.first_line)
        }),
{
    let m = http_message::message_in(data)->0;
    let line = m.first_line;
    lemma_cut_parts(line);
    lemma_cut_parts(http_message::cut(line).1->0);
    lemma_begins_with_first_line(data);
}

proof fn lemma_cut_parts(s: Seq<char>)
    ensures
        match http_message::cut(s).1 {
            Some(rest) => s == http_message::cut(s).0 + " "@ + rest,
            None => s == http_message::cut(s).0,
        },
        has_no_space(http_message::cut(s).0),
{
    reveal_strlit(" ");
    assert(" "@ =~= seq![' ']);
    text::lemma_char_positions(s, ' ');
    text::lemma_find(s, seq![' ']);
    match text::find(s, seq![' ']) {
        Some(i) => {
            assert(text::occurs_at(s, seq![' '], i));
            assert(s =~= s.take(i) + " "@ + s.skip(i + 1));
            assert forall|j: int| 0 <= j < i implies #[trigger] s.take(i)[j] != ' ' by {
                assert(!text::occurs_at(s, seq![' '], j));
            }
        },
        None => {
            assert forall|j: int| 0 <= j < s.len() implies #[trigger] s[j] != ' ' by {
                assert(!text::occurs_at(s, seq![' '], j));
            }
        },
    }
}

proof fn lemma_begins_with_first_line(data: Seq<char>)
    ensures
        http_message::head_lines(data).len() > 0,
        text::starts_with(data, http_message::head_lines(data)[0]),
{
    ssl_merger_laws::lemma_blank_line(data);
    let head = http_message::head_of(data);
    text::lemma_find(data, "\r\n\r\n"@);
    text::lemma_find(head, "\r\n"@);
    let first = http_message::head_lines(data)[0];
    match text::find(head, "\r\n"@) {
        Some(i) => {
            assert(first == head.take(i));
        },
        None => {
            assert(first == head);
        },
    }
    assert(data.subrange(0, first.len() as int) =~= first);
}

/// A response is read as it is written: a protocol, a code and a text, with one space between each
/// two. A code that is a number below 65536 is the status; the text is all that follows it, spaces
/// too.
pub proof fn law_status_lines_are_read_back(
    protocol: Seq<char>,
    code: nat,
    reason: Seq<char>,
    rest: Seq<char>,
)
    requires
        text::starts_with(protocol, "HTTP/"@),
        has_no_space(protocol),
        !text::contains(protocol + " "@ + (text::decimal(code) + " "@ + reason), "\r\n"@),
        rest.len() == 0 || text::starts_with(rest, "\r\n"@),
    ensures
        match http_message::message_in(
            protocol + " "@ + (text::decimal(code) + " "@ + reason) + rest,
        ) {
            Some(m) => {
                &&& m.message_type == HTTPMessageType::Response
                &&& m.first_line == protocol + " "@ + (text::decimal(code) + " "@ + reason)
                &&& m.protocol == Some(protocol)
                &&& m.status_code == if code < 65536 {
                    Some(code as u16)
                } else {
                    None
                }
                &&& m.status_text == Some(reason)
                &&& m.method is None
                &&& m.path is None
            },
            None => false,
        },
{
    let line = protocol + " "@ + (text::decimal(code) + " "@ + reason);
    lemma_first_head_line(line, rest);
    text::law_numbers_are_read_back(code, u16::MAX as nat);
    assert(has_no_space(text::decimal(code))) by {
        assert forall|i: int| 0 <= i < text::decimal(code).len() implies #[trigger] text::decimal(
            code,
        )[i] != ' ' by {
            assert('0' <= text::decimal(code)[i]);
        }
    }
    lemma_cut(protocol, text::decimal(code) + " "@ + reason);
    lemma_cut(text::decimal(code), reason);
    let n = "HTTP/"@.len() as int;
    assert(line.subrange(0, n) =~= protocol.subrange(0, n));
}

/// A text whose first line neither begins as a response does nor has two spaces is no message.
pub proof fn law_other_first_lines_are_no_message(line: Seq<char>, rest: Seq<char>)
    requires
        !text::contains(line, "\r\n"@),
        rest.len() == 0 || text::starts_with(rest, "\r\n"@),
        !text::starts_with(line, "HTTP/"@),
        forall|i: int, j: int|
            0 <= i < j < line.len() ==> !(#[trigger] line[i] == ' ' && #[trigger] line[j] == ' '),
    ensures
        http_message::message_in(line + rest) is None,
{
    lemma_first_head_line(line, rest);
    reveal_strlit(" ");
    lemma_cut_parts(line);
    let first = http_message::cut(line).0;
    match http_message::cut(line).1 {
        Some(more) => {
            lemma_cut_parts(more);
            assert(line[first.len() as int] == ' ');
            match http_message::cut(more).1 {
                Some(last) => {
                    let k = http_message::cut(more).0.len() as int;
                    assert(more[k] == ' ');
                    assert(line[first.len() + 1 + k] == more[k]);
                },
                None => {},
            }
        },
        None => {},
    }
}

/// The lines of two texts with a line end between them are those of both.
proof fn lemma_lines_joint(x: Seq<char>, y: Seq<char>)
    ensures
        text::split(x + "\r\n"@ + y, "\r\n"@) == text::split(x, "\r\n"@) + text::split(y, "\r\n"@),
    decreases x.len(),
{
    let nl = "\r\n"@;
    let s = x + nl + y;
    ssl_merger_laws::lemma_blank_line(s);
    text::lemma_find(x, nl);
    match text::find(x, nl) {
        Some(i) => {
            assert(x.subrange(i, i + 2) =~= s.subrange(i, i + 2));
            assert(text::occurs_at(s, nl, i));
            assert forall|j: int| 0 <= j < i implies !text::occurs_at(s, nl, j) by {
                assert(!text::occurs_at(x, nl, j));
                assert(x.subrange(j, j + 2) =~= s.subrange(j, j + 2));
            }
            text::lemma_least(s, nl, i);
            let r = x.skip(i + 2);
            lemma_lines_joint(r, y);
            assert(s.take(i) =~= x.take(i));
            assert(s.skip(i + 2) =~= r + nl + y);
            assert(seq![x.take(i)] + (text::split(r, nl) + text::split(y, nl)) =~= (seq![x.take(i)]
                + text::split(r, nl)) + text::split(y, nl));
        },
        None => {
            text::lemma_absent(x, nl);
            ssl_merger_laws::lemma_first_line(x, y);
        },
    }
}

proof fn lemma_head_lines(head: Seq<char>, body: Seq<char>)
    requires
        ssl_merger_laws::is_head(head),
    ensures
        http_message::head_lines(head + "\r\n\r\n"@ + body) == text::split(head, "\r\n"@),
        http_message::body_of(head + "\r\n\r\n"@ + body) == if text::is_blank(body) {
            None
        } else {
            Some(body)
        },
{
    ssl_merger_laws::lemma_head_ends(head, body);
}

/// What follows on the head and a blank line is the body of a message, unless it is white space
/// alone. A head of one line has no fields.
pub proof fn law_bodies_are_read_back(head: Seq<char>, body: Seq<char>)
    requires
        ssl_merger_laws::is_head(head),
        http_message::message_in(head + "\r\n\r\n"@ + body) is Some,
    ensures
        ({
            let m = http_message::message_in(head + "\r\n\r\n"@ + body)->0;
            &&& m.body == if text::is_blank(body) {
                None
            } else {
                Some(body)
            }
            &&& !text::contains(head, "\r\n"@) ==> m.headers.len() == 0 && m.first_line == head
        }),
{
    lemma_head_lines(head, body);
    if !text::contains(head, "\r\n"@) {
        ssl_merger_laws::lemma_first_line(head, Seq::empty());
        assert(seq![head].drop_first() =~= Seq::empty());
    }
}

/// One header line more gives a message its field, under the name in lower case, without the white
/// space around name and value. All other fields, the first line and the body stay as they are.
pub proof fn law_header_lines_are_read_back(
    head: Seq<char>,
    name: Seq<char>,
    between: Seq<char>,
    value: Seq<char>,
    body: Seq<char>,
)
    requires
        ({
            let line = name + ":"@ + (between + value);
            &&& ssl_merger_laws::is_head(head)
            &&& ssl_merger_laws::is_head(head + "\r\n"@ + line)
            &&& !text::contains(line, "\r\n"@)
        }),
        http_message::message_in(head + "\r\n\r\n"@ + body) is Some,
        vstd::utf8::is_ascii_chars(name),
        name.len() > 0,
        forall|i: int|
            0 <= i < name.len() ==> #[trigger] name[i] != ':' && !text::is_whitespace(name[i]),
        text::is_blank(between),
        value.len() > 0 ==> !text::is_whitespace(value[0]) && !text::is_whitespace(value.last()),
    ensures
        ({
            let line = name + ":"@ + (between + value);
            let m = http_message::message_in(head + "\r\n\r\n"@ + body)->0;
            match http_message::message_in(head + "\r\n"@ + line + "\r\n\r\n"@ + body) {
                Some(n) => {
                    &&& assoc::lookup(n.headers, text::ascii_lowercase(name)) == Some(value)
                    &&& forall|other: Seq<char>|
                        other != text::ascii_lowercase(name) ==> #[trigger] assoc::lookup(
                            n.headers,
                            other,
                        ) == assoc::lookup(m.headers, other)
                    &&& n.first_line == m.first_line
                    &&& n.message_type == m.message_type
                    &&& n.path == m.path
                    &&& n.status_code == m.status_code
                    &&& n.body == m.body
                },
                None => false,
            }
        }),
{
    let line = name + ":"@ + (between + value);
    let longer = head + "\r\n"@ + line;
    lemma_head_lines(head, body);
    lemma_head_lines(longer, body);
    lemma_lines_joint(head, line);
    ssl_merger_laws::lemma_first_line(line, Seq::empty());
    let lines = text::split(head, "\r\n"@);
    let more = text::split(longer, "\r\n"@);
    text::law_pieces_join_to_the_text(head, "\r\n"@);
    assert(more =~= lines.push(line));
    assert(more[0] == lines[0]);
    assert(more.drop_first().drop_last() =~= lines.drop_first());
    assert(more.drop_first().last() == line);
    reveal_strlit(":");
    assert(":"@ =~= seq![':']);
    text::lemma_char_positions(line, ':');
    let n = name.len() as int;
    assert(line[n] == ':');
    assert forall|j: int| 0 <= j < n implies !text::occurs_at(line, seq![':'], j) by {
        assert(line[j] == name[j]);
    }
    text::lemma_least(line, seq![':'], n);
    assert(line.take(n) =~= name);
    assert(line.skip(n + 1) =~= between + value);
    let none = Seq::<char>::empty();
    assert(none + name + none =~= name);
    assert(between + value + none =~= between + value);
    text::law_trimming_takes_white_space_off(none, name, none);
    text::law_trimming_takes_white_space_off(between, value, none);
    assoc::lemma_set(
        http_message::fields_of(lines.drop_first()),
        text::ascii_lowercase(name),
        value,
    );
}

/// The event for a message says what the message says, and the length and the chunks that its
/// fields declare. The bytes of the body are given in hexadecimal.
pub proof fn law_message_events_say_what_the_message_says(
    tid: u64,
    m: MessageModel,
    data: Json,
    include_raw_data: bool,
)
    ensures
        ({
            let e = http_message::event_of(tid, m, data, include_raw_data);
            &&& e.tid == tid
            &&& e.message_type == if m.message_type == HTTPMessageType::Request {
                "request"@
            } else {
                "response"@
            }
            &&& e.first_line == m.first_line
            &&& e.method == m.method
            &&& e.path == m.path
            &&& e.protocol == m.protocol
            &&& e.status_code == m.status_code
            &&& e.status_text == m.status_text
            &&& e.headers == m.headers
            &&& e.body == m.body
            &&& e.has_body == m.body is Some
            &&& e.body_hex is Some == m.body is Some
            &&& m.body is Some ==> bytes::hex_bytes(e.body_hex->0) == bytes::captured_bytes(
                m.body->0,
            )
            &&& e.raw_data == if include_raw_data {
                Some(m.raw_data)
            } else {
                None
            }
            &&& e.original_source == "ssl"@
            &&& http_message::message_size(m) <= usize::MAX ==> e.total_size
                == http_message::message_size(m)
            &&& e.capture_metadata == crate::capture_metadata::CaptureState::empty().observe(
                data,
            ).summary()
            &&& assoc::lookup(m.headers, "content-length"@) is None ==> e.content_length is None
            &&& forall|n: nat|
                assoc::lookup(m.headers, "content-length"@) == Some(#[trigger] text::decimal(n))
                    ==> e.content_length == if n <= usize::MAX {
                    Some(n as usize)
                } else {
                    None
                }
            &&& assoc::lookup(m.headers, "transfer-encoding"@) is None ==> !e.is_chunked
            &&& forall|a: Seq<char>, b: Seq<char>|
                assoc::lookup(m.headers, "transfer-encoding"@) == Some(
                    #[trigger] (a + "chunked"@ + b),
                ) && vstd::utf8::is_ascii_chars(a + "chunked"@ + b) ==> e.is_chunked
        }),
{
    let e = http_message::event_of(tid, m, data, include_raw_data);
    if m.body is Some {
        bytes::law_hex_gives_the_bytes_back(bytes::captured_bytes(m.body->0));
    }
    assert forall|n: nat|
        assoc::lookup(m.headers, "content-length"@) == Some(
            #[trigger] text::decimal(n),
        ) implies e.content_length == if n <= usize::MAX {
        Some(n as usize)
    } else {
        None
    } by {
        text::law_numbers_are_read_back(n, usize::MAX as nat);
    }
    assert forall|a: Seq<char>, b: Seq<char>|
        assoc::lookup(m.headers, "transfer-encoding"@) == Some(#[trigger] (a + "chunked"@ + b))
            && vstd::utf8::is_ascii_chars(a + "chunked"@ + b) implies e.is_chunked by {
        reveal_strlit("chunked");
        let c = "chunked"@;
        let low = text::ascii_lowercase(a + c + b);
        assert(text::ascii_lowercase(c) =~= c);
        assert(low =~= text::ascii_lowercase(a) + c + text::ascii_lowercase(b));
        text::lemma_contains_around(text::ascii_lowercase(a), c, text::ascii_lowercase(b));
    }
}

/// A field more makes the size of a message larger by the bytes of its name and value and four;
/// without fields and body the size is that of the first line and four.
pub proof fn law_sizes_count_every_part(
    m: MessageModel,
    fields: Seq<(Seq<char>, Seq<char>)>,
    name: Seq<char>,
    value: Seq<char>,
    body: Seq<char>,
)
    ensures
        ({
            let bare = MessageModel { headers: Seq::empty(), body: None, ..m };
            let some = MessageModel { headers: fields, ..m };
            let more = MessageModel { headers: fields.push((name, value)), ..m };
            &&& http_message::message_size(bare) == vstd::utf8::encode_utf8(m.first_line).len() + 4
            &&& http_message::message_size(more) == http_message::message_size(some)
                + vstd::utf8::encode_utf8(name).len() + vstd::utf8::encode_utf8(value).len() + 4
            &&& http_message::message_size(MessageModel { body: Some(body), ..some })
                == http_message::message_size(MessageModel { body: None, ..some })
                + vstd::utf8::encode_utf8(body).len()
        }),
{
    assert(fields.push((name, value)).drop_last() =~= fields);
}

/// Any of the common methods and a version of HTTP/1, anywhere in a text, mark it as HTTP, as do a
/// line that begins as that of a response and the names of common fields.
pub proof fn law_marks_of_http(a: Seq<char>, b: Seq<char>, m: Seq<char>)
    ensures
        is_common_method(m) && text::contains(a + (m + " "@) + b, "HTTP/1."@)
            ==> http_message::looks_like_http1(a + (m + " "@) + b),
        http_message::looks_like_http1("HTTP/1."@ + b),
        http_message::looks_like_http1(a + "\r\nHTTP/1."@ + b),
        http_message::looks_like_http1(a + "Content-Type:"@ + b),
        http_message::looks_like_http1(a + "content-type:"@ + b),
        http_message::looks_like_http1(a + "Host:"@ + b),
        http_message::looks_like_http1(a + "host:"@ + b),
        http_message::looks_like_http1(a + "User-Agent:"@ + b),
        http_message::looks_like_http1(a + "user-agent:"@ + b),
{
    text::lemma_contains_around(a, m + " "@, b);
    if is_common_method(m) {
        lemma_method_marks(m);
    }
    let n = "HTTP/1."@.len() as int;
    assert(("HTTP/1."@ + b).subrange(0, n) =~= "HTTP/1."@);
    text::lemma_contains_around(a, "\r\nHTTP/1."@, b);
    text::lemma_contains_around(a, "Content-Type:"@, b);
    text::lemma_contains_around(a, "content-type:"@, b);
    text::lemma_contains_around(a, "Host:"@, b);
    text::lemma_contains_around(a, "host:"@, b);
    text::lemma_contains_around(a, "User-Agent:"@, b);
    text::lemma_contains_around(a, "user-agent:"@, b);
}

proof fn lemma_method_marks(m: Seq<char>)
    requires
        is_common_method(m),
    ensures
        ({
            let t = m + " "@;
            t == "GET "@ || t == "POST "@ || t == "PUT "@ || t == "DELETE "@ || t == "HEAD "@ || t
                == "OPTIONS "@ || t == "PATCH "@
        }),
{
    reveal_strlit(" ");
    reveal_strlit("GET");
    reveal_strlit("POST");
    reveal_strlit("PUT");
    reveal_strlit("DELETE");
    reveal_strlit("HEAD");
    reveal_strlit("OPTIONS");
    reveal_strlit("PATCH");
    reveal_strlit("GET ");
    reveal_strlit("POST ");
    reveal_strlit("PUT ");
    reveal_strlit("DELETE ");
    reveal_strlit("HEAD ");
    reveal_strlit("OPTIONS ");
    reveal_strlit("PATCH ");
    let t = m + " "@;
    if m == "GET"@ {
        assert(t =~= "GET "@);
    } else if m == "POST"@ {
        assert(t =~= "POST "@);
    } else if m == "PUT"@ {
        assert(t =~= "PUT "@);
    } else if m == "DELETE"@ {
        assert(t =~= "DELETE "@);
    } else if m == "HEAD"@ {
        assert(t =~= "HEAD "@);
    } else if m == "OPTIONS"@ {
        assert(t =~= "OPTIONS "@);
    } else {
        assert(t =~= "PATCH "@);
    }
}

/// A text without a colon and without a version of HTTP/1 is not taken for HTTP.
pub proof fn law_other_texts_are_not_http(data: Seq<char>)
    requires
        !text::contains(data, "HTTP/1."@),
        forall|i: int| 0 <= i < data.len() ==> #[trigger] data[i] != ':',
    ensures
        !http_message::looks_like_http1(data),
{
    reveal_strlit("Content-Type:");
    reveal_strlit("content-type:");
    reveal_strlit("Host:");
    reveal_strlit("host:");
    reveal_strlit("User-Agent:");
    reveal_strlit("user-agent:");
    reveal_strlit("\r\nHTTP/1.");
    reveal_strlit("HTTP/1.");
    if text::starts_with(data, "HTTP/1."@) {
        assert(text::contains(data, "HTTP/1."@));
    }
    if text::contains(data, "\r\nHTTP/1."@) {
        let k = choose|k: int| text::occurs_at(data, "\r\nHTTP/1."@, k);
        assert(data.subrange(k, k + 9).subrange(2, 9) =~= data.subrange(k + 2, k + 9));
        assert("\r\nHTTP/1."@.subrange(2, 9) =~= "HTTP/1."@);
        assert(text::occurs_at(data, "HTTP/1."@, k + 2));
    }
    if text::contains(data, "Content-Type:"@) {
        let k = choose|k: int| text::occurs_at(data, "Content-Type:"@, k);
        assert(data.subrange(k, k + 13)[12] == data[k + 12]);
    }
    if text::contains(data, "content-type:"@) {
        let k = choose|k: int| text::occurs_at(data, "content-type:"@, k);
        assert(data.subrange(k, k + 13)[12] == data[k + 12]);
    }
    if text::contains(data, "Host:"@) {
        let k = choose|k: int| text::occurs_at(data, "Host:"@, k);
        assert(data.subrange(k, k + 5)[4] == data[k + 4]);
    }
    if text::contains(data, "host:"@) {
        let k = choose|k: int| text::occurs_at(data, "host:"@, k);
        assert(data.subrange(k, k + 5)[4] == data[k + 4]);
    }
    if text::contains(data, "User-Agent:"@) {
        let k = choose|k: int| text::occurs_at(data, "User-Agent:"@, k);
        assert(data.subrange(k, k + 11)[10] == data[k + 10]);
    }
    if text::contains(data, "user-agent:"@) {
        let k = choose|k: int| text::occurs_at(data, "user-agent:"@, k);
        assert(data.subrange(k, k + 11)[10] == data[k + 10]);
    }
}

} // verus!
