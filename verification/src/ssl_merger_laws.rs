//! Laws of merging TLS reads: when a message is complete, and what the merged event says.

use crate::event::EventModel;
use crate::json::Json;
use crate::ssl_merger;
use crate::ssl_merger::{BufferModel, MergerModel};
use crate::text;
use vstd::prelude::*;

verus! {

/// The head of a message: it holds no blank line and does not end with a line end.
pub open spec fn is_head(head: Seq<char>) -> bool {
    !text::contains(head, "\r\n\r\n"@) && !text::ends_with(head, "\r\n"@)
}

pub(crate) proof fn lemma_blank_line(s: Seq<char>)
    ensures
        "\r\n"@ == seq!['\r', '\n'],
        "\r\n\r\n"@ == seq!['\r', '\n', '\r', '\n'],
        forall|j: int| #[trigger]
            text::occurs_at(s, "\r\n\r\n"@, j) <==> (0 <= j && j + 3 < s.len() && s[j] == '\r' && s[j
                + 1] == '\n' && s[j + 2] == '\r' && s[j + 3] == '\n'),
        text::ends_with(s, "\r\n"@) <==> (s.len() >= 2 && s[s.len() - 2] == '\r' && s.last()
            == '\n'),
{
    reveal_strlit("\r\n");
    reveal_strlit("\r\n\r\n");
    assert("\r\n"@ =~= seq!['\r', '\n']);
    let p = seq!['\r', '\n', '\r', '\n'];
    assert("\r\n\r\n"@ =~= p);
    assert forall|j: int| #[trigger] text::occurs_at(s, p, j) <==> (0 <= j && j + 3 < s.len() && s[j]
        == '\r' && s[j + 1] == '\n' && s[j + 2] == '\r' && s[j + 3] == '\n') by {
        if 0 <= j && j + 4 <= s.len() {
            let t = s.subrange(j, j + 4);
            assert(t[0] == s[j] && t[1] == s[j + 1] && t[2] == s[j + 2] && t[3] == s[j + 3]);
            if s[j] == '\r' && s[j + 1] == '\n' && s[j + 2] == '\r' && s[j + 3] == '\n' {
                assert(t =~= p);
            }
        }
    }
    if s.len() >= 2 {
        let t = s.subrange(s.len() - 2, s.len() as int);
        assert(t[0] == s[s.len() - 2] && t[1] == s.last());
        if s[s.len() - 2] == '\r' && s.last() == '\n' {
            assert(t =~= seq!['\r', '\n']);
        }
    }
}

/// The first blank line after a head is the one that ends it.
pub(crate) proof fn lemma_head_ends(head: Seq<char>, body: Seq<char>)
    requires
        is_head(head),
    ensures
        text::find(head + "\r\n\r\n"@ + body, "\r\n\r\n"@) == Some(head.len() as int),
        (head + "\r\n\r\n"@ + body).take(head.len() as int) == head,
        (head + "\r\n\r\n"@ + body).skip(head.len() as int + 4) == body,
{
    let bl = "\r\n\r\n"@;
    let s = head + bl + body;
    let n = head.len() as int;
    lemma_blank_line(s);
    lemma_blank_line(head);
    text::lemma_contains_around(head, bl, body);
    assert forall|j: int| 0 <= j < n implies !text::occurs_at(s, bl, j) by {
        assert(s[j] == head[j]);
        if j + 3 < n {
            assert(s[j + 1] == head[j + 1] && s[j + 2] == head[j + 2] && s[j + 3] == head[j + 3]);
            assert(!text::occurs_at(head, bl, j));
        } else if j + 3 == n {
            assert(s[j + 3] == '\r');
        } else if j + 2 == n {
            assert(s[j + 1] == head[j + 1]);
        } else {
            assert(s[j + 1] == '\r');
        }
    }
    text::lemma_least(s, bl, n);
    assert(s.take(n) =~= head);
    assert(s.skip(n + 4) =~= body);
}

/// The text of chunks: for each its size, a line end, its content and a line end.
pub open spec fn chunk_text(chunks: Seq<(Seq<char>, Seq<char>)>) -> Seq<char>
    decreases chunks.len(),
{
    if chunks.len() == 0 {
        Seq::empty()
    } else {
        chunk_text(chunks.drop_last()) + chunks.last().0 + "\r\n"@ + chunks.last().1 + "\r\n"@
    }
}

/// A chunk that is not the last: a size on one line, and some content without a line end.
pub open spec fn is_chunk(chunk: (Seq<char>, Seq<char>)) -> bool {
    &&& chunk.0.len() > 0
    &&& forall|i: int| 0 <= i < chunk.0.len() ==> text::is_hex_digit(#[trigger] chunk.0[i])
    &&& chunk.1.len() > 0
    &&& !text::contains(chunk.1, "\r\n"@)
}

pub(crate) proof fn lemma_no_line_end(s: Seq<char>, i: int)
    requires
        !text::contains(s, "\r\n"@),
        0 <= i,
        i + 1 < s.len(),
    ensures
        !(s[i] == '\r' && s[i + 1] == '\n'),
{
    lemma_blank_line(s);
    if s[i] == '\r' && s[i + 1] == '\n' {
        assert(s.subrange(i, i + 2) =~= "\r\n"@);
        assert(text::occurs_at(s, "\r\n"@, i));
    }
}

/// Chunks hold no blank line, and end with a line end after something else.
proof fn lemma_chunks(chunks: Seq<(Seq<char>, Seq<char>)>)
    requires
        forall|i: int| 0 <= i < chunks.len() ==> is_chunk(#[trigger] chunks[i]),
    ensures
        !text::contains(chunk_text(chunks), "\r\n\r\n"@),
        chunks.len() > 0 ==> {
            let t = chunk_text(chunks);
            &&& t.len() > 4
            &&& t[t.len() - 2] == '\r'
            &&& t.last() == '\n'
            &&& !(t[t.len() - 4] == '\r' && t[t.len() - 3] == '\n')
        },
    decreases chunks.len(),
{
    let t = chunk_text(chunks);
    lemma_blank_line(t);
    if chunks.len() > 0 {
        let before = chunks.drop_last();
        let b = chunk_text(before);
        let (size, content) = chunks.last();
        assert forall|i: int| 0 <= i < before.len() implies is_chunk(#[trigger] before[i]) by {
            assert(before[i] == chunks[i]);
        }
        assert(is_chunk(chunks[chunks.len() - 1]));
        lemma_chunks(before);
        lemma_blank_line(b);
        let x = b.len() as int;
        let y = x + size.len();
        let z = y + 2;
        let w = z + content.len();
        assert(forall|i: int| 0 <= i < x ==> #[trigger] t[i] == b[i]);
        assert(forall|i: int| x <= i < y ==> #[trigger] t[i] == size[i - x]);
        assert(t[y] == '\r' && t[y + 1] == '\n');
        assert(forall|i: int| z <= i < w ==> #[trigger] t[i] == content[i - z]);
        assert(t[w] == '\r' && t[w + 1] == '\n' && t.len() == w + 2);
        assert forall|j: int| 0 <= j implies !text::occurs_at(t, "\r\n\r\n"@, j) by {
            if j + 3 < t.len() && t[j] == '\r' && t[j + 1] == '\n' && t[j + 2] == '\r' && t[j + 3]
                == '\n' {
                lemma_line_end_places(b, size, content, t, j + 2);
                lemma_line_end_places(b, size, content, t, j);
                if j + 3 < x {
                    assert(text::occurs_at(b, "\r\n\r\n"@, j));
                }
            }
        }
        if t[w - 2] == '\r' && t[w - 1] == '\n' {
            lemma_line_end_places(b, size, content, t, w - 2);
        }
    }
}

/// In the text of chunks, a line end of the last one stands behind its size or its content.
proof fn lemma_line_end_places(
    b: Seq<char>,
    size: Seq<char>,
    content: Seq<char>,
    t: Seq<char>,
    j: int,
)
    requires
        is_chunk((size, content)),
        t == b + size + "\r\n"@ + content + "\r\n"@,
        0 <= j,
        j + 1 < t.len(),
        t[j] == '\r',
        t[j + 1] == '\n',
    ensures
        j + 1 < b.len() || j == b.len() + size.len() || j == t.len() - 2,
{
    lemma_blank_line(t);
    let x = b.len() as int;
    let y = x + size.len();
    let z = y + 2;
    let w = z + content.len();
    assert(t[y] == '\r' && t[y + 1] == '\n' && t[w] == '\r' && t[w + 1] == '\n');
    if j + 1 == x {
        assert(t[x] == size[0]);
    } else if x <= j < y {
        assert(t[j] == size[j - x]);
    } else if z <= j {
        if j + 1 < w {
            assert(t[j] == content[j - z] && t[j + 1] == content[j + 1 - z]);
            lemma_no_line_end(content, j - z);
        } else if j + 1 == w {
            assert(t[w] == '\r');
        }
    }
}

/// What lies between two texts is ASCII and, in lower case, announces chunks.
pub open spec fn announces_chunks(head: Seq<char>, before: Seq<char>, name: Seq<char>, after: Seq<char>) -> bool {
    &&& vstd::utf8::is_ascii_chars(head)
    &&& head == before + name + after
    &&& text::ascii_lowercase(name) == "transfer-encoding: chunked"@
}

proof fn lemma_announces(head: Seq<char>, before: Seq<char>, name: Seq<char>, after: Seq<char>)
    requires
        announces_chunks(head, before, name, after),
    ensures
        ssl_merger::declares_chunks(head),
{
    let low = text::ascii_lowercase(head);
    assert(low =~= text::ascii_lowercase(before) + text::ascii_lowercase(name)
        + text::ascii_lowercase(after));
    text::lemma_contains_around(
        text::ascii_lowercase(before),
        text::ascii_lowercase(name),
        text::ascii_lowercase(after),
    );
}

/// The head names HTTP, as that of a response or of a request.
pub open spec fn names_http(head: Seq<char>) -> bool {
    text::starts_with(head, "HTTP/"@) || text::contains(head, " HTTP/1."@)
}

/// A message is complete exactly if its body is what its head announces.
proof fn lemma_message(head: Seq<char>, body: Seq<char>)
    requires
        is_head(head),
        names_http(head),
    ensures
        ssl_merger::is_complete(head + "\r\n\r\n"@ + body) == ssl_merger::body_is_complete(
            head,
            body,
        ),
{
    let s = head + "\r\n\r\n"@ + body;
    lemma_head_ends(head, body);
    if text::starts_with(head, "HTTP/"@) {
        let n = "HTTP/"@.len() as int;
        assert(s.subrange(0, n) =~= head.subrange(0, n));
    } else {
        assert(s.subrange(0, head.len() as int) =~= head);
        text::lemma_part_contains(s, 0, head.len() as int, " HTTP/1."@);
    }
}

proof fn lemma_last_chunk(chunks: Seq<(Seq<char>, Seq<char>)>, rest: Seq<char>)
    requires
        forall|i: int| 0 <= i < chunks.len() ==> is_chunk(#[trigger] chunks[i]),
    ensures
        !ssl_merger::has_last_chunk(chunk_text(chunks)),
        ssl_merger::has_last_chunk(chunk_text(chunks) + "0\r\n\r\n"@),
        chunks.len() > 0 ==> ssl_merger::has_last_chunk(chunk_text(chunks) + "0\r\n\r\n"@ + rest),
{
    let body = chunk_text(chunks);
    let bl = "\r\n\r\n"@;
    let last = "0\r\n\r\n"@;
    reveal_strlit("0\r\n\r\n");
    reveal_strlit("\r\n0\r\n\r\n");
    lemma_chunks(chunks);
    lemma_blank_line(body);
    assert(last =~= seq!['0', '\r', '\n', '\r', '\n']);
    assert("\r\n0\r\n\r\n"@ =~= seq!['\r', '\n', '0', '\r', '\n', '\r', '\n']);
    if text::ends_with(body, last) {
        let k = body.len() - 5;
        assert(body.subrange(k, k + 5).subrange(1, 5) =~= body.subrange(k + 1, k + 5));
        assert(last.subrange(1, 5) =~= bl);
        assert(text::occurs_at(body, bl, k + 1));
    }
    if text::contains(body, "\r\n0\r\n\r\n"@) {
        let k = choose|k: int| text::occurs_at(body, "\r\n0\r\n\r\n"@, k);
        assert(body.subrange(k, k + 7).subrange(3, 7) =~= body.subrange(k + 3, k + 7));
        assert("\r\n0\r\n\r\n"@.subrange(3, 7) =~= bl);
        assert(text::occurs_at(body, bl, k + 3));
    }
    assert((body + last).subrange(body.len() as int, body.len() as int + 5) =~= last);
    if chunks.len() > 0 {
        let all = body + last + rest;
        let k = body.len() - 2;
        assert(all.subrange(k, k + 7) =~= "\r\n0\r\n\r\n"@);
        assert(text::occurs_at(all, "\r\n0\r\n\r\n"@, k));
    }
}

/// A message in chunks is complete once the chunk of size zero has come, and not before: chunks
/// alone do not make it complete, whatever their sizes and contents are. What follows on the last
/// chunk does not matter.
pub proof fn law_chunked_messages_wait_for_the_last_chunk(
    head: Seq<char>,
    before: Seq<char>,
    name: Seq<char>,
    after: Seq<char>,
    chunks: Seq<(Seq<char>, Seq<char>)>,
    rest: Seq<char>,
)
    requires
        is_head(head),
        names_http(head),
        announces_chunks(head, before, name, after),
        forall|i: int| 0 <= i < chunks.len() ==> is_chunk(#[trigger] chunks[i]),
    ensures
        !ssl_merger::is_complete(head + "\r\n\r\n"@ + chunk_text(chunks)),
        ssl_merger::is_complete(head + "\r\n\r\n"@ + (chunk_text(chunks) + "0\r\n\r\n"@)),
        chunks.len() > 0 ==> ssl_merger::is_complete(
            head + "\r\n\r\n"@ + (chunk_text(chunks) + "0\r\n\r\n"@ + rest),
        ),
{
    let body = chunk_text(chunks);
    lemma_announces(head, before, name, after);
    lemma_last_chunk(chunks, rest);
    lemma_message(head, body);
    lemma_message(head, body + "0\r\n\r\n"@);
    lemma_message(head, body + "0\r\n\r\n"@ + rest);
}

/// The lines of a text are its first one and those of the rest.
pub(crate) proof fn lemma_first_line(line: Seq<char>, rest: Seq<char>)
    requires
        !text::contains(line, "\r\n"@),
    ensures
        text::split(line, "\r\n"@) == seq![line],
        text::split(line + "\r\n"@ + rest, "\r\n"@) == seq![line] + text::split(rest, "\r\n"@),
{
    let nl = "\r\n"@;
    let s = line + nl + rest;
    let n = line.len() as int;
    lemma_blank_line(s);
    text::lemma_absent(line, nl);
    assert(text::split(line, nl) =~= seq![line]);
    text::lemma_contains_around(line, nl, rest);
    assert forall|j: int| 0 <= j < n implies !text::occurs_at(s, nl, j) by {
        if text::occurs_at(s, nl, j) {
            let t = s.subrange(j, j + 2);
            assert(t[0] == s[j] && t[1] == s[j + 1]);
            assert(s[j] == line[j]);
            if j + 1 < n {
                assert(s[j + 1] == line[j + 1]);
                lemma_no_line_end(line, j);
            } else {
                assert(s[n] == '\r');
            }
        }
    }
    text::lemma_least(s, nl, n);
    assert(s.take(n) =~= line);
    assert(s.skip(n + 2) =~= rest);
}

/// What a piece of an ASCII text is in lower case.
proof fn lemma_lower_part(s: Seq<char>, from: int, to: int)
    requires
        0 <= from <= to <= s.len(),
        vstd::utf8::is_ascii_chars(s),
    ensures
        vstd::utf8::is_ascii_chars(s.subrange(from, to)),
        text::lowercase(s.subrange(from, to)) == text::ascii_lowercase(s).subrange(from, to),
{
    let part = s.subrange(from, to);
    assert forall|i: int| 0 <= i < part.len() implies 0 <= #[trigger] part[i] as int <= 0x7f by {
        assert(part[i] == s[from + i]);
    }
    assert(text::ascii_lowercase(part) =~= text::ascii_lowercase(s).subrange(from, to));
}

/// A line that declares a length: its name in letters of either case, blanks and the number.
proof fn lemma_length_line(name: Seq<char>, pad: Seq<char>, n: nat)
    requires
        text::ascii_lowercase(name) == "content-length:"@,
        forall|i: int| 0 <= i < pad.len() ==> #[trigger] pad[i] == ' ',
        n <= usize::MAX,
        vstd::utf8::is_ascii_chars(name + pad + text::decimal(n)),
    ensures
        ssl_merger::declared_length(name + pad + text::decimal(n)) == Some(n),
        !text::contains(name + pad + text::decimal(n), "\r\n"@),
{
    let value = pad + text::decimal(n);
    let line = name + pad + text::decimal(n);
    assert(line =~= name + value);
    reveal_strlit("content-length:");
    let cl = "content-length:"@;
    assert(cl.len() == 15);
    assert(text::ascii_lowercase(name).len() == name.len());
    text::law_numbers_are_read_back(n, usize::MAX as nat);
    assert(text::ascii_lowercase(line).subrange(0, 15) =~= text::ascii_lowercase(name));
    assert(text::starts_with(text::lowercase(line), cl));
    assert(line.skip(15) =~= value);
    assert(text::trim(value) == text::decimal(n)) by {
        assert forall|i: int| 0 <= i < pad.len() implies text::is_whitespace(
            #[trigger] pad[i],
        ) by {}
        let d = text::decimal(n);
        assert('0' <= d[0] <= '9' && '0' <= d[d.len() - 1] <= '9');
        text::law_trimming_takes_white_space_off(pad, d, Seq::empty());
        assert(pad + d + Seq::<char>::empty() =~= value);
    }
    lemma_blank_line(line);
    if text::contains(line, "\r\n"@) {
        let j = choose|j: int| text::occurs_at(line, "\r\n"@, j);
        assert(line.subrange(j, j + 2)[0] == line[j]);
        assert(line[j] == '\r');
        if j < 15 {
            assert(text::ascii_lowercase(name)[j] == text::ascii_lower(name[j]));
            assert(cl[j] == '\r');
        } else if j < 15 + pad.len() {
            assert(line[j] == pad[j - 15]);
        } else {
            assert(line[j] == text::decimal(n)[j - 15 - pad.len()]);
        }
    }
}

/// The first line of a text, with or without others behind it.
pub(crate) proof fn lemma_line_and_tail(line: Seq<char>, tail: Seq<char>)
    requires
        !text::contains(line, "\r\n"@),
        tail.len() == 0 || text::starts_with(tail, "\r\n"@),
    ensures
        text::split(line + tail, "\r\n"@).len() > 0,
        text::split(line + tail, "\r\n"@)[0] == line,
{
    reveal_strlit("\r\n");
    if tail.len() == 0 {
        assert(line + tail =~= line);
        lemma_first_line(line, Seq::empty());
    } else {
        let more = tail.skip(2);
        assert(tail.subrange(0, 2) =~= "\r\n"@);
        assert(tail =~= "\r\n"@ + more);
        assert(line + tail =~= line + "\r\n"@ + more);
        lemma_first_line(line, more);
    }
}

/// A message whose second line declares a length, in letters of either case and with blanks
/// around the number, is complete exactly if its body has that many bytes of UTF-8. Other lines
/// may follow.
pub proof fn law_declared_lengths_decide(
    first: Seq<char>,
    name: Seq<char>,
    pad: Seq<char>,
    n: nat,
    tail: Seq<char>,
    body: Seq<char>,
)
    requires
        ({
            let head = first + "\r\n"@ + (name + pad + text::decimal(n) + tail);
            &&& is_head(head)
            &&& names_http(head)
            &&& vstd::utf8::is_ascii_chars(head)
            &&& !text::contains(text::ascii_lowercase(head), "transfer-encoding: chunked"@)
        }),
        !text::contains(first, "\r\n"@),
        !text::starts_with(text::ascii_lowercase(first), "content-length:"@),
        text::ascii_lowercase(name) == "content-length:"@,
        forall|i: int| 0 <= i < pad.len() ==> #[trigger] pad[i] == ' ',
        tail.len() == 0 || text::starts_with(tail, "\r\n"@),
        n <= usize::MAX,
    ensures
        ({
            let head = first + "\r\n"@ + (name + pad + text::decimal(n) + tail);
            ssl_merger::is_complete(head + "\r\n\r\n"@ + body) == (vstd::utf8::encode_utf8(
                body,
            ).len() >= n)
        }),
{
    let nl = "\r\n"@;
    reveal_strlit("\r\n");
    let line = name + pad + text::decimal(n);
    let rest = line + tail;
    let head = first + nl + (name + pad + text::decimal(n) + tail);
    lemma_message(head, body);
    let x = first.len() as int;
    lemma_lower_part(head, 0, x);
    assert(head.subrange(0, x) =~= first);
    let end = x + 2 + line.len();
    lemma_lower_part(head, x + 2, end);
    assert(head.subrange(x + 2, end) =~= line);
    lemma_length_line(name, pad, n);
    lemma_first_line(first, rest);
    lemma_line_and_tail(line, tail);
    let lines = text::split(rest, nl);
    let all = text::split(head, nl);
    assert(all =~= seq![first] + lines);
    assert(all.drop_first() =~= lines);
    assert(text::lowercase(first) == text::ascii_lowercase(first));
    assert(ssl_merger::declared_length(first) is None);
    assert(ssl_merger::first_declared_length(lines) == Some(n));
    assert(ssl_merger::first_declared_length(all) == Some(n));
}

proof fn lemma_no_length(s: Seq<char>)
    requires
        vstd::utf8::is_ascii_chars(s),
        !text::contains(text::ascii_lowercase(s), "content-length:"@),
    ensures
        ssl_merger::first_declared_length(text::split(s, "\r\n"@)) is None,
    decreases s.len(),
{
    let nl = "\r\n"@;
    let lines = text::split(s, nl);
    let n = s.len() as int;
    reveal_strlit("\r\n");
    text::lemma_find(s, nl);
    let end: int = match text::find(s, nl) {
        Some(i) => i,
        None => n,
    };
    lemma_lower_part(s, 0, end);
    assert(s.subrange(0, end) =~= s.take(end));
    if text::starts_with(text::lowercase(s.take(end)), "content-length:"@) {
        assert(text::contains(text::ascii_lowercase(s).subrange(0, end), "content-length:"@));
        text::lemma_part_contains(text::ascii_lowercase(s), 0, end, "content-length:"@);
    }
    match text::find(s, nl) {
        Some(i) => {
            lemma_lower_part(s, i + 2, n);
            let rest = s.skip(i + 2);
            assert(s.subrange(i + 2, n) =~= rest);
            assert(text::ascii_lowercase(rest) =~= text::ascii_lowercase(s).subrange(i + 2, n));
            if text::contains(text::ascii_lowercase(rest), "content-length:"@) {
                text::lemma_part_contains(text::ascii_lowercase(s), i + 2, n, "content-length:"@);
            }
            lemma_no_length(rest);
            assert(lines.drop_first() =~= text::split(rest, nl));
            assert(lines[0] == s.take(i));
            assert(ssl_merger::declared_length(lines[0]) is None);
        },
        None => {
            assert(s.take(n) =~= s);
            assert(lines =~= seq![s]);
            assert(ssl_merger::first_declared_length(lines.drop_first()) is None);
            assert(ssl_merger::declared_length(lines[0]) is None);
        },
    }
}

/// A message whose head mentions neither a length nor chunks is complete with its head, whatever
/// follows.
pub proof fn law_messages_without_a_length_end_with_their_head(head: Seq<char>, body: Seq<char>)
    requires
        is_head(head),
        names_http(head),
        vstd::utf8::is_ascii_chars(head),
        !text::contains(text::ascii_lowercase(head), "content-length:"@),
        !text::contains(text::ascii_lowercase(head), "transfer-encoding: chunked"@),
    ensures
        ssl_merger::is_complete(head + "\r\n\r\n"@ + body),
{
    lemma_message(head, body);
    lemma_no_length(head);
}

/// Any of the common methods marks a text as HTTP wherever it stands, as does a version in a
/// request line; a response is marked by its beginning alone.
pub proof fn law_methods_and_versions_mark_http(a: Seq<char>, b: Seq<char>)
    ensures
        ssl_merger::looks_like_http(a + "GET "@ + b),
        ssl_merger::looks_like_http(a + "POST "@ + b),
        ssl_merger::looks_like_http(a + "PUT "@ + b),
        ssl_merger::looks_like_http(a + "DELETE "@ + b),
        ssl_merger::looks_like_http(a + " HTTP/1."@ + b),
        ssl_merger::looks_like_http("HTTP/"@ + b),
{
    text::lemma_contains_around(a, "GET "@, b);
    text::lemma_contains_around(a, "POST "@, b);
    text::lemma_contains_around(a, "PUT "@, b);
    text::lemma_contains_around(a, "DELETE "@, b);
    text::lemma_contains_around(a, " HTTP/1."@, b);
    let n = "HTTP/"@.len() as int;
    assert(("HTTP/"@ + b).subrange(0, n) =~= "HTTP/"@);
}

/// A text without a space and without the name of HTTP is never a complete message, nor is one
/// without a blank line.
pub proof fn law_other_texts_are_never_complete(data: Seq<char>)
    requires
        !text::contains(data, "\r\n\r\n"@) || (!text::contains(data, "HTTP/"@) && forall|i: int|
            0 <= i < data.len() ==> #[trigger] data[i] != ' '),
    ensures
        !ssl_merger::is_complete(data),
{
    text::lemma_absent(data, "\r\n\r\n"@);
    if ssl_merger::is_complete(data) {
        reveal_strlit(" HTTP/1.");
        reveal_strlit("GET ");
        reveal_strlit("POST ");
        reveal_strlit("PUT ");
        reveal_strlit("DELETE ");
        if text::starts_with(data, "HTTP/"@) {
            assert(text::contains(data, "HTTP/"@));
        } else if text::contains(data, " HTTP/1."@) {
            let k = choose|k: int| text::occurs_at(data, " HTTP/1."@, k);
            assert(data.subrange(k, k + 8)[0] == data[k]);
        } else if text::contains(data, "GET "@) {
            let k = choose|k: int| text::occurs_at(data, "GET "@, k);
            assert(data.subrange(k, k + 4)[3] == data[k + 3]);
        } else if text::contains(data, "POST "@) {
            let k = choose|k: int| text::occurs_at(data, "POST "@, k);
            assert(data.subrange(k, k + 5)[4] == data[k + 4]);
        } else if text::contains(data, "PUT "@) {
            let k = choose|k: int| text::occurs_at(data, "PUT "@, k);
            assert(data.subrange(k, k + 4)[3] == data[k + 3]);
        } else {
            let k = choose|k: int| text::occurs_at(data, "DELETE "@, k);
            assert(data.subrange(k, k + 7)[6] == data[k + 6]);
        }
    }
}

/// The event is a TLS read of a thread at a time, with a text.
pub open spec fn is_read_of(event: EventModel, tid: u64, time: u64, content: Seq<char>) -> bool {
    &&& event.source == "ssl"@
    &&& event.data.field("function"@) == Some(Json::Text("READ/RECV"@))
    &&& event.data.field("tid"@) == Some(Json::Unsigned(tid))
    &&& event.data.field("timestamp_ns"@) == Some(Json::Unsigned(time))
    &&& event.data.field("data"@) == Some(Json::Text(content))
}

/// What is held back of a thread: the text, the number of reads, the time of the first one, and
/// that read itself.
pub open spec fn holds(
    s: MergerModel,
    tid: u64,
    content: Seq<char>,
    reads: nat,
    first: u64,
    original: EventModel,
) -> bool {
    &&& s.buffers.contains_key(tid)
    &&& s.buffers[tid].data == content
    &&& s.buffers[tid].event_count == reads
    &&& s.buffers[tid].first_timestamp == first
    &&& s.buffers[tid].original == original
}

/// The event stands for so many reads of a thread: it is the first one at the time of the last,
/// with the text of all, its length in bytes of UTF-8, how many there were and when the first was.
/// Its other fields are those of the first read.
pub open spec fn stands_for(
    o: EventModel,
    original: EventModel,
    content: Seq<char>,
    reads: nat,
    first: u64,
    last: u64,
) -> bool {
    &&& o.timestamp == last
    &&& o.source == original.source
    &&& o.pid == original.pid
    &&& o.comm == original.comm
    &&& o.data.field("data"@) == Some(Json::Text(content))
    &&& o.data.field("len"@) == Some(Json::Unsigned(vstd::utf8::encode_utf8(content).len() as u64))
    &&& o.data.field("merged_events"@) == Some(Json::Unsigned(reads as u64))
    &&& o.data.field("first_timestamp_ns"@) == Some(Json::Unsigned(first))
    &&& forall|key: Seq<char>|
        key != "data"@ && key != "len"@ && key != "merged_events"@ && key != "first_timestamp_ns"@
            ==> #[trigger] o.data.field(key) == original.data.field(key)
}

proof fn lemma_stands_for(b: BufferModel)
    requires
        b.original.data is Object,
    ensures
        stands_for(
            b.merged(),
            b.original,
            b.data,
            b.event_count as nat,
            b.first_timestamp,
            b.last_timestamp,
        ),
{
    reveal_strlit("data");
    reveal_strlit("len");
    reveal_strlit("merged_events");
    reveal_strlit("first_timestamp_ns");
    assert("data"@.len() == 4 && "len"@.len() == 3 && "merged_events"@.len() == 13
        && "first_timestamp_ns"@.len() == 18);
    let len = Json::Unsigned(vstd::utf8::encode_utf8(b.data).len() as u64);
    let f0 = b.original.data->Object_0;
    let f1 = crate::assoc::set(f0, "data"@, Json::Text(b.data));
    let f2 = crate::assoc::set(f1, "len"@, len);
    let f3 = crate::assoc::set(f2, "merged_events"@, Json::Unsigned(b.event_count as u64));
    crate::assoc::lemma_set(f0, "data"@, Json::Text(b.data));
    crate::assoc::lemma_set(f1, "len"@, len);
    crate::assoc::lemma_set(f2, "merged_events"@, Json::Unsigned(b.event_count as u64));
    crate::assoc::lemma_set(f3, "first_timestamp_ns"@, Json::Unsigned(b.first_timestamp));
}

/// A first read of a thread is held back, or it comes out as a message of one read.
pub proof fn law_first_reads_open_a_buffer(
    s: MergerModel,
    e: EventModel,
    tid: u64,
    time: u64,
    content: Seq<char>,
)
    requires
        is_read_of(e, tid, time, content),
        !s.buffers.contains_key(tid),
    ensures
        match s.output(e) {
            Some(o) => ssl_merger::is_complete(content) && stands_for(o, e, content, 1, time, time)
                && !s.after(e).buffers.contains_key(tid),
            None => !ssl_merger::is_complete(content) && holds(
                s.after(e),
                tid,
                content,
                1,
                time,
                e,
            ),
        },
{
    let b = s.filled(e);
    assert(Seq::<char>::empty() + content =~= content);
    assert(b.data == content);
    if s.output(e) is Some {
        lemma_stands_for(b);
    }
}

/// A further read of a thread goes behind what is held back of it. All of it comes out as one
/// event once it is a complete message, or once more than the timeout lies between the first read
/// and this one; otherwise it stays held back.
pub proof fn law_further_reads_are_added(
    s: MergerModel,
    e: EventModel,
    tid: u64,
    time: u64,
    content: Seq<char>,
    held: Seq<char>,
    reads: nat,
    first: u64,
    original: EventModel,
)
    requires
        is_read_of(e, tid, time, content),
        holds(s, tid, held, reads, first, original),
        original.data is Object,
        reads < usize::MAX,
    ensures
        match s.output(e) {
            Some(o) => {
                &&& ssl_merger::is_complete(held + content) || time >= first + (s.timeout_ms + 1)
                    * 1_000_000
                &&& stands_for(o, original, held + content, reads + 1, first, time)
                &&& !s.after(e).buffers.contains_key(tid)
            },
            None => {
                &&& !ssl_merger::is_complete(held + content)
                &&& time < first + (s.timeout_ms + 1) * 1_000_000
                &&& holds(s.after(e), tid, held + content, reads + 1, first, original)
            },
        },
        forall|other: u64|
            other != tid ==> s.after(e).buffers.contains_key(other) == s.buffers.contains_key(other)
                && #[trigger] s.after(e).buffers[other] == s.buffers[other],
{
    let b = s.filled(e);
    assert(b.data == held + content);
    assert(b.first_timestamp == first && b.last_timestamp == time);
    if s.output(e) is Some {
        lemma_stands_for(b);
    }
}

/// Events from elsewhere, and calls other than reads, come out as they are and change nothing.
pub proof fn law_other_events_come_out_as_they_are(s: MergerModel, e: EventModel)
    requires
        e.source != "ssl"@ || e.data.field("function"@) != Some(Json::Text("READ/RECV"@)),
    ensures
        s.output(e) == Some(e),
        s.after(e) == s,
{
}

} // verus!
