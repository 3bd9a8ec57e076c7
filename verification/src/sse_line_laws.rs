//! Laws of the lines of server-sent events: what is written on them is what the event says.

use crate::json;
use crate::sse_event;
use crate::sse_event::SseEventModel;
use crate::sse_event_laws;
use crate::text;
use vstd::prelude::*;

verus! {

/// The text stands on one line.
pub open spec fn is_line(s: Seq<char>) -> bool {
    forall|i: int| 0 <= i < s.len() ==> #[trigger] s[i] != '\n' && s[i] != '\r'
}

/// The text neither begins nor ends with white space.
pub open spec fn is_trimmed(s: Seq<char>) -> bool {
    s.len() > 0 ==> !text::is_whitespace(s[0]) && !text::is_whitespace(s.last())
}

/// The text is one block: lines that end with `\n`, none of them empty.
pub open spec fn is_block(s: Seq<char>) -> bool {
    &&& s.len() > 0
    &&& s[0] != '\n'
    &&& s.last() != '\n'
    &&& forall|i: int| 0 <= i < s.len() ==> #[trigger] s[i] != '\r'
    &&& forall|i: int|
        0 <= i && i + 1 < s.len() ==> !(#[trigger] s[i] == '\n' && s[i + 1] == '\n')
}

/// The event has these data, and holds them as JSON where they are that and raw where not.
pub open spec fn has_data(e: SseEventModel, data: Option<Seq<char>>) -> bool {
    &&& e.data == data
    &&& e.parsed_data == match data {
        Some(d) => json::parsed(d),
        None => None,
    }
    &&& e.raw_data == if data is Some && json::parsed(data->0) is None {
        data
    } else {
        None
    }
}

proof fn lemma_one_line(line: Seq<char>)
    requires
        is_line(line),
    ensures
        text::split(line, "\n"@) == seq![line],
{
    sse_event_laws::lemma_line_ends();
    text::lemma_char_positions(line, '\n');
    text::lemma_absent(line, seq!['\n']);
    assert(!text::contains(line, seq!['\n']));
}

/// A line more makes a block of a block.
proof fn lemma_longer_block(t: Seq<char>, line: Seq<char>)
    requires
        is_block(t),
        is_line(line),
        line.len() > 0,
    ensures
        is_block(t + "\n"@ + line),
        text::split(t + "\n"@ + line, "\n"@) == text::split(t, "\n"@).push(line),
{
    sse_event_laws::lemma_line_ends();
    let nl = seq!['\n'];
    let s = t + nl + line;
    let n = t.len() as int;
    assert(line[0] != '\n');
    assert(line[line.len() - 1] != '\n');
    assert(s.last() == line[line.len() - 1]);
    assert forall|i: int| 0 <= i < s.len() implies #[trigger] s[i] != '\r' by {
        if i < n {
            assert(s[i] == t[i]);
        } else if i > n {
            assert(s[i] == line[i - n - 1]);
        }
    }
    assert forall|i: int| 0 <= i && i + 1 < s.len() implies !(#[trigger] s[i] == '\n' && s[i + 1]
        == '\n') by {
        if i + 1 < n {
            assert(s[i] == t[i] && s[i + 1] == t[i + 1]);
        } else if i + 1 == n {
            assert(s[i] == t[n - 1]);
        } else if i == n {
            assert(s[i + 1] == line[0]);
        } else {
            assert(s[i] == line[i - n - 1]);
        }
    }
    sse_event_laws::lemma_lines_joint(t, line);
    lemma_one_line(line);
    assert(text::split(t, "\n"@) + seq![line] =~= text::split(t, "\n"@).push(line));
}

/// The events in one block.
proof fn lemma_block(s: Seq<char>)
    requires
        is_block(s),
    ensures
        sse_event::events_in_chunk(s) == match sse_event::block_event(s) {
            Some(e) => seq![e],
            None => Seq::empty(),
        },
{
    sse_event_laws::lemma_line_ends();
    let crlf = seq!['\r', '\n'];
    if text::contains(s, crlf) {
        let k = choose|k: int| text::occurs_at(s, crlf, k);
        assert(s.subrange(k, k + 2)[0] == s[k]);
    }
    text::lemma_absent(s, crlf);
    assert(text::split(s, crlf) =~= seq![s]);
    assert(text::replace(s, "\r\n"@, "\n"@) == s);
    sse_event_laws::lemma_blank_line_positions(s);
    if text::contains(s, "\n\n"@) {
        let k = choose|k: int| text::occurs_at(s, "\n\n"@, k);
        assert(s[k] == '\n' && s[k + 1] == '\n');
    }
    text::lemma_absent(s, "\n\n"@);
    let blocks = text::split(s, "\n\n"@);
    assert(blocks =~= seq![s]);
    assert(blocks.drop_last() =~= Seq::empty());
    assert(sse_event::events_of_blocks(blocks.drop_last()) =~= Seq::empty());
    assert(blocks.last() == s);
    assert(Seq::<SseEventModel>::empty().push(sse_event::block_event(s)->0) =~= seq![
        sse_event::block_event(s)->0,
    ]);
}

/// A line is a block.
proof fn lemma_line_is_block(line: Seq<char>)
    requires
        is_line(line),
        line.len() > 0,
    ensures
        is_block(line),
        text::split(line, "\n"@) == seq![line],
{
    assert(line[0] != '\n');
    assert(line[line.len() - 1] != '\n');
    lemma_one_line(line);
}

/// A line with one of the three names says what stands behind the name.
proof fn lemma_named_line(name: Seq<char>, pad: Seq<char>, value: Seq<char>)
    requires
        name == "event:"@ || name == "data:"@ || name == "id:"@,
        text::is_blank(pad),
        is_line(pad),
        is_line(value),
        is_trimmed(value),
    ensures
        ({
            let line = name + pad + value;
            let l = text::trim(line);
            &&& is_line(line)
            &&& line.len() > 0
            &&& !text::is_blank(line)
            &&& text::starts_with(l, "event:"@) == (name == "event:"@)
            &&& text::starts_with(l, "data:"@) == (name == "data:"@)
            &&& text::starts_with(l, "id:"@) == (name == "id:"@)
            &&& text::trim(l.skip(name.len() as int)) == value
        }),
{
    reveal_strlit("event:");
    reveal_strlit("data:");
    reveal_strlit("id:");
    let none = Seq::<char>::empty();
    let line = name + pad + value;
    let l = text::trim(line);
    let n = name.len() as int;
    assert(line[0] == name[0]);
    assert(line[1] == name[1]);
    assert(!text::is_whitespace(name[0]));
    assert(!text::is_whitespace(line[0]));
    assert forall|i: int| 0 <= i < line.len() implies #[trigger] line[i] != '\n' && line[i]
        != '\r' by {
        if i < n {
            assert(line[i] == name[i]);
        } else if i < n + pad.len() {
            assert(line[i] == pad[i - n]);
        } else {
            assert(line[i] == value[i - n - pad.len()]);
        }
    }
    if value.len() > 0 {
        assert(line.last() == value.last());
        assert(none + line + none =~= line);
        text::law_trimming_takes_white_space_off(none, line, none);
        assert(l.skip(n) =~= pad + value + none);
    } else {
        assert(line =~= none + name + pad);
        assert(!text::is_whitespace(name.last()));
        text::law_trimming_takes_white_space_off(none, name, pad);
        assert(l.skip(n) =~= none + value + none);
        text::law_trimming_takes_white_space_off(none, value, none);
    }
    assert(l[0] == name[0] && l[1] == name[1]);
    assert(l.subrange(0, n) =~= name);
    text::law_trimming_takes_white_space_off(pad, value, none);
    if text::starts_with(l, "event:"@) {
        assert(l.subrange(0, 6)[0] == l[0]);
    }
    if text::starts_with(l, "data:"@) {
        assert(l.subrange(0, 5)[0] == l[0]);
    }
    if text::starts_with(l, "id:"@) {
        assert(l.subrange(0, 3)[0] == l[0]);
    }
    assert("event:"@[0] == 'e' && "data:"@[0] == 'd' && "id:"@[0] == 'i');
}

/// A text with something else than white space stays one with anything before it.
proof fn lemma_not_blank(t: Seq<char>, line: Seq<char>)
    requires
        !text::is_blank(line),
    ensures
        !text::is_blank(t + "\n"@ + line),
{
    sse_event_laws::lemma_line_ends();
    let k = choose|k: int| 0 <= k < line.len() && !text::is_whitespace(#[trigger] line[k]);
    let s = t + "\n"@ + line;
    assert(s[t.len() + 1 + k] == line[k]);
}

/// A line with data is an event with these data, one with a name an event of that name, and one
/// with an id is no event.
pub proof fn law_single_lines_are_read_back(pad: Seq<char>, value: Seq<char>)
    requires
        text::is_blank(pad),
        is_line(pad),
        is_line(value),
        is_trimmed(value),
    ensures
        ({
            let d = sse_event::events_in_chunk("data:"@ + pad + value);
            let n = sse_event::events_in_chunk("event:"@ + pad + value);
            &&& d.len() == 1
            &&& has_data(d[0], Some(value))
            &&& d[0].event is None && d[0].id is None
            &&& n.len() == 1
            &&& has_data(n[0], None)
            &&& n[0].event == Some(value) && n[0].id is None
            &&& sse_event::events_in_chunk("id:"@ + pad + value).len() == 0
        }),
{
    let none = Seq::<Seq<char>>::empty();
    lemma_named_line("data:"@, pad, value);
    lemma_named_line("event:"@, pad, value);
    lemma_named_line("id:"@, pad, value);
    reveal_strlit("event:");
    reveal_strlit("data:");
    reveal_strlit("id:");
    let d = "data:"@ + pad + value;
    let n = "event:"@ + pad + value;
    let i = "id:"@ + pad + value;
    lemma_line_is_block(d);
    lemma_line_is_block(n);
    lemma_line_is_block(i);
    lemma_block(d);
    lemma_block(n);
    lemma_block(i);
    lemma_one(d);
    lemma_one(n);
    lemma_one(i);
    assert(none.push(value) =~= seq![value]);
    assert(text::join(seq![value], "\n"@) == value);
}

/// A block of one line is what the line says.
proof fn lemma_one(line: Seq<char>)
    ensures
        sse_event::block_of(seq![line]) == sse_event::BlockModel::empty().with_line(line),
{
    let lines = seq![line];
    assert(lines.drop_last() =~= Seq::empty());
    assert(sse_event::block_of(lines.drop_last()) == sse_event::BlockModel::empty());
    assert(lines.last() == line);
}

/// A line more adds to an event: data come on a new line after those that are there, and a name
/// or an id stands in place of the one before. The rest stays as it is.
pub proof fn law_further_lines_are_added(
    t: Seq<char>,
    pad: Seq<char>,
    value: Seq<char>,
    e: SseEventModel,
)
    requires
        is_block(t),
        sse_event::events_in_chunk(t) == seq![e],
        text::is_blank(pad),
        is_line(pad),
        is_line(value),
        is_trimmed(value),
    ensures
        ({
            let d = sse_event::events_in_chunk(t + "\n"@ + ("data:"@ + pad + value));
            let n = sse_event::events_in_chunk(t + "\n"@ + ("event:"@ + pad + value));
            let i = sse_event::events_in_chunk(t + "\n"@ + ("id:"@ + pad + value));
            &&& d.len() == 1
            &&& d[0].event == e.event && d[0].id == e.id
            &&& has_data(
                d[0],
                match e.data {
                    Some(before) => Some(before + "\n"@ + value),
                    None => Some(value),
                },
            )
            &&& n.len() == 1
            &&& n[0].event == Some(value) && n[0].id == e.id
            &&& has_data(n[0], e.data)
            &&& i.len() == 1
            &&& i[0].event == e.event && i[0].id == Some(value)
            &&& has_data(i[0], e.data)
        }),
{
    lemma_block(t);
    let found = sse_event::block_event(t);
    assert(found is Some) by {
        if found is None {
            assert(sse_event::events_in_chunk(t).len() == 0);
        }
    }
    assert(seq![found->0][0] == seq![e][0]);
    assert(found == Some(e));
    lemma_further_data(t, pad, value, e);
    lemma_further_name(t, pad, value, e);
    lemma_further_id(t, pad, value, e);
}

/// What a line more makes of a block.
proof fn lemma_further(t: Seq<char>, line: Seq<char>)
    requires
        is_block(t),
        is_line(line),
        line.len() > 0,
        !text::is_blank(line),
    ensures
        ({
            let s = t + "\n"@ + line;
            let b = sse_event::block_of(text::split(t, "\n"@)).with_line(line);
            &&& sse_event::block_of(text::split(s, "\n"@)) == b
            &&& sse_event::events_in_chunk(s) == match sse_event::block_event(s) {
                Some(e) => seq![e],
                None => Seq::empty(),
            }
            &&& !text::is_blank(s)
        }),
{
    lemma_longer_block(t, line);
    lemma_not_blank(t, line);
    let lines = text::split(t, "\n"@).push(line);
    assert(lines.drop_last() =~= text::split(t, "\n"@));
    lemma_block(t + "\n"@ + line);
}

proof fn lemma_further_data(t: Seq<char>, pad: Seq<char>, value: Seq<char>, e: SseEventModel)
    requires
        is_block(t),
        sse_event::block_event(t) == Some(e),
        text::is_blank(pad),
        is_line(pad),
        is_line(value),
        is_trimmed(value),
    ensures
        ({
            let d = sse_event::events_in_chunk(t + "\n"@ + ("data:"@ + pad + value));
            &&& d.len() == 1
            &&& d[0].event == e.event && d[0].id == e.id
            &&& has_data(
                d[0],
                match e.data {
                    Some(before) => Some(before + "\n"@ + value),
                    None => Some(value),
                },
            )
        }),
{
    let line = "data:"@ + pad + value;
    lemma_named_line("data:"@, pad, value);
    reveal_strlit("event:");
    reveal_strlit("data:");
    reveal_strlit("id:");
    lemma_further(t, line);
    let b = sse_event::block_of(text::split(t, "\n"@));
    let more = b.data.push(value);
    assert(more.drop_last() =~= b.data);
    assert(more.last() == value);
    assert(b.with_line(line).data == more);
    if b.data.len() == 0 {
        assert(more[0] == value);
    }
}

proof fn lemma_further_name(t: Seq<char>, pad: Seq<char>, value: Seq<char>, e: SseEventModel)
    requires
        is_block(t),
        sse_event::block_event(t) == Some(e),
        text::is_blank(pad),
        is_line(pad),
        is_line(value),
        is_trimmed(value),
    ensures
        ({
            let n = sse_event::events_in_chunk(t + "\n"@ + ("event:"@ + pad + value));
            &&& n.len() == 1
            &&& n[0].event == Some(value) && n[0].id == e.id
            &&& has_data(n[0], e.data)
        }),
{
    let line = "event:"@ + pad + value;
    lemma_named_line("event:"@, pad, value);
    reveal_strlit("event:");
    lemma_further(t, line);
}

proof fn lemma_further_id(t: Seq<char>, pad: Seq<char>, value: Seq<char>, e: SseEventModel)
    requires
        is_block(t),
        sse_event::block_event(t) == Some(e),
        text::is_blank(pad),
        is_line(pad),
        is_line(value),
        is_trimmed(value),
    ensures
        ({
            let i = sse_event::events_in_chunk(t + "\n"@ + ("id:"@ + pad + value));
            &&& i.len() == 1
            &&& i[0].event == e.event && i[0].id == Some(value)
            &&& has_data(i[0], e.data)
        }),
{
    let line = "id:"@ + pad + value;
    lemma_named_line("id:"@, pad, value);
    reveal_strlit("event:");
    reveal_strlit("data:");
    reveal_strlit("id:");
    lemma_further(t, line);
}

/// A line that begins with none of the three names, such as a comment, says nothing.
pub proof fn law_other_lines_say_nothing(t: Seq<char>, line: Seq<char>)
    requires
        is_block(t),
        is_line(line),
        line.len() > 0,
        !text::is_whitespace(line[0]),
        !text::is_whitespace(line.last()),
        !text::starts_with(line, "event:"@),
        !text::starts_with(line, "data:"@),
        !text::starts_with(line, "id:"@),
    ensures
        sse_event::events_in_chunk(line).len() == 0,
        !text::is_blank(t) ==> sse_event::events_in_chunk(t + "\n"@ + line)
            == sse_event::events_in_chunk(t),
{
    let none = Seq::<char>::empty();
    assert(none + line + none =~= line);
    text::law_trimming_takes_white_space_off(none, line, none);
    assert(!text::is_blank(line));
    lemma_line_is_block(line);
    lemma_block(line);
    lemma_one(line);
    lemma_block(t);
    lemma_further(t, line);
}

/// An id before the data of an event is the id of the event.
pub proof fn law_ids_may_come_first(pad: Seq<char>, id: Seq<char>, data: Seq<char>)
    requires
        text::is_blank(pad),
        is_line(pad),
        is_line(id),
        is_trimmed(id),
        is_line(data),
        is_trimmed(data),
    ensures
        ({
            let e = sse_event::events_in_chunk(
                ("id:"@ + pad + id) + "\n"@ + ("data:"@ + pad + data),
            );
            &&& e.len() == 1
            &&& e[0].id == Some(id)
            &&& e[0].event is None
            &&& has_data(e[0], Some(data))
        }),
{
    reveal_strlit("event:");
    reveal_strlit("data:");
    reveal_strlit("id:");
    lemma_named_line("id:"@, pad, id);
    lemma_named_line("data:"@, pad, data);
    let first = "id:"@ + pad + id;
    let second = "data:"@ + pad + data;
    lemma_line_is_block(first);
    lemma_one(first);
    lemma_further(first, second);
    let none = Seq::<Seq<char>>::empty();
    assert(none.push(data) =~= seq![data]);
    assert(text::join(seq![data], "\n"@) == data);
}

} // verus!
