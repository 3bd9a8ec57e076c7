//! Laws of reading server-sent events from a text.

use crate::json;
use crate::sse_event;
use crate::sse_event::{BlockModel, SseEventModel};
use crate::text;
use vstd::prelude::*;

verus! {

pub(crate) proof fn lemma_line_ends()
    ensures
        "\n"@ == seq!['\n'],
        "\r\n"@ == seq!['\r', '\n'],
        "\n\n"@ == seq!['\n', '\n'],
        "\n\r\n"@ == seq!['\n', '\r', '\n'],
        "\n\r\r\n"@ == seq!['\n', '\r', '\r', '\n'],
{
    reveal_strlit("\n");
    reveal_strlit("\r\n");
    reveal_strlit("\n\n");
    reveal_strlit("\n\r\n");
    reveal_strlit("\n\r\r\n");
    assert("\n"@ =~= seq!['\n']);
    assert("\r\n"@ =~= seq!['\r', '\n']);
    assert("\n\n"@ =~= seq!['\n', '\n']);
    assert("\n\r\n"@ =~= seq!['\n', '\r', '\n']);
    assert("\n\r\r\n"@ =~= seq!['\n', '\r', '\r', '\n']);
}

/// A character before which the separator does not stand goes to the first piece.
proof fn lemma_split_step(s: Seq<char>, sep: Seq<char>)
    requires
        sep.len() > 0,
        s.len() > 0,
        !text::occurs_at(s, sep, 0),
    ensures
        ({
            let rest = text::split(s.skip(1), sep);
            &&& rest.len() > 0
            &&& text::split(s, sep) == rest.update(0, seq![s[0]] + rest[0])
        }),
{
    let t = s.skip(1);
    assert forall|j: int| 0 <= j implies #[trigger] text::occurs_at(t, sep, j)
        == text::occurs_at(s, sep, j + 1) by {
        if j + sep.len() <= t.len() {
            assert(t.subrange(j, j + sep.len()) =~= s.subrange(j + 1, j + 1 + sep.len()));
        }
    }
    text::lemma_find(t, sep);
    text::lemma_find(s, sep);
    match text::find(t, sep) {
        Some(k) => {
            assert(text::occurs_at(t, sep, k));
            assert forall|j: int| 0 <= j < k + 1 implies !text::occurs_at(s, sep, j) by {
                if j > 0 {
                    assert(!text::occurs_at(t, sep, j - 1));
                }
            }
            text::lemma_least(s, sep, k + 1);
            assert(s.take(k + 1) =~= seq![s[0]] + t.take(k));
            assert(s.skip(k + 1 + sep.len()) =~= t.skip(k + sep.len()));
            let more = text::split(t.skip(k + sep.len()), sep);
            assert(seq![seq![s[0]] + t.take(k)] + more =~= (seq![t.take(k)] + more).update(
                0,
                seq![s[0]] + t.take(k),
            ));
        },
        None => {
            assert(text::find(s, sep) is None) by {
                if text::find(s, sep) is Some {
                    let k = text::find(s, sep)->0;
                    assert(k > 0);
                    assert(text::occurs_at(t, sep, k - 1));
                }
            }
            assert(s =~= seq![s[0]] + t);
            assert(seq![s] =~= seq![t].update(0, seq![s[0]] + t));
        },
    }
}

proof fn lemma_join_step(pieces: Seq<Seq<char>>, sep: Seq<char>, c: char)
    requires
        pieces.len() > 0,
    ensures
        text::join(pieces.update(0, seq![c] + pieces[0]), sep) == seq![c] + text::join(pieces, sep),
{
    let changed = pieces.update(0, seq![c] + pieces[0]);
    if pieces.len() > 1 {
        text::lemma_join_first(pieces, sep);
        text::lemma_join_first(changed, sep);
        assert(changed.drop_first() =~= pieces.drop_first());
        assert(text::join(changed, sep) =~= seq![c] + text::join(pieces, sep));
    }
}

/// The text with each `\r\n` written as `\n`, character by character.
spec fn unix(s: Seq<char>) -> Seq<char>
    decreases s.len(),
{
    if s.len() == 0 {
        s
    } else if s.len() >= 2 && s[0] == '\r' && s[1] == '\n' {
        seq!['\n'] + unix(s.skip(2))
    } else {
        seq![s[0]] + unix(s.skip(1))
    }
}

proof fn lemma_unix(s: Seq<char>)
    ensures
        text::replace(s, "\r\n"@, "\n"@) == unix(s),
    decreases s.len(),
{
    lemma_line_ends();
    let sep = seq!['\r', '\n'];
    if s.len() == 0 {
        text::lemma_absent(s, sep);
        assert(text::split(s, sep) =~= seq![s]);
    } else if s.len() >= 2 && s[0] == '\r' && s[1] == '\n' {
        assert(s.subrange(0, 2) =~= sep);
        text::lemma_least(s, sep, 0);
        let rest = text::split(s.skip(2), sep);
        text::law_pieces_join_to_the_text(s.skip(2), sep);
        let all = text::split(s, sep);
        assert(all =~= seq![s.take(0)] + rest);
        text::lemma_join_first(all, seq!['\n']);
        assert(all.drop_first() =~= rest);
        lemma_unix(s.skip(2));
        assert(text::join(all, seq!['\n']) =~= unix(s));
    } else {
        assert(!text::occurs_at(s, sep, 0)) by {
            if text::occurs_at(s, sep, 0) {
                assert(s.subrange(0, 2)[0] == '\r' && s.subrange(0, 2)[1] == '\n');
            }
        }
        lemma_split_step(s, sep);
        lemma_join_step(text::split(s.skip(1), sep), seq!['\n'], s[0]);
        lemma_unix(s.skip(1));
    }
}

proof fn lemma_unix_append(x: Seq<char>, y: Seq<char>)
    requires
        !(x.len() > 0 && x.last() == '\r' && y.len() > 0 && y[0] == '\n'),
    ensures
        unix(x + y) == unix(x) + unix(y),
    decreases x.len(),
{
    if x.len() == 0 {
        assert(x + y =~= y);
        assert(unix(x) + unix(y) =~= unix(y));
    } else if x.len() >= 2 && x[0] == '\r' && x[1] == '\n' {
        lemma_unix_append(x.skip(2), y);
        assert((x + y).skip(2) =~= x.skip(2) + y);
        assert(unix(x + y) =~= unix(x) + unix(y));
    } else {
        lemma_unix_append(x.skip(1), y);
        assert((x + y).skip(1) =~= x.skip(1) + y);
        assert(unix(x + y) =~= unix(x) + unix(y));
    }
}

/// The text without a `\r` at its end.
spec fn stem(s: Seq<char>) -> Seq<char> {
    if s.len() > 0 && s.last() == '\r' {
        s.drop_last()
    } else {
        s
    }
}

/// `\r` is written as it is where no `\n` follows.
proof fn lemma_unix_stem(s: Seq<char>)
    ensures
        unix(s) == if s.len() > 0 && s.last() == '\r' {
            unix(stem(s)).push('\r')
        } else {
            unix(stem(s))
        },
{
    if s.len() > 0 && s.last() == '\r' {
        let end = seq!['\r'];
        assert(s =~= stem(s) + end);
        lemma_unix_append(stem(s), end);
        assert(unix(end.skip(1)) =~= Seq::empty());
        assert(unix(end) =~= end);
        assert(unix(stem(s)) + end =~= unix(stem(s)).push('\r'));
    }
}

/// A line end after a text takes a `\r` at its end away.
proof fn lemma_unix_line(x: Seq<char>, y: Seq<char>)
    ensures
        unix(x + seq!['\n'] + y) == unix(stem(x)) + seq!['\n'] + unix(y),
{
    let nl = seq!['\n'];
    if x.len() > 0 && x.last() == '\r' {
        let crlf = seq!['\r', '\n'];
        assert(x + nl + y =~= stem(x) + (crlf + y));
        lemma_unix_append(stem(x), crlf + y);
        assert((crlf + y).skip(2) =~= y);
        assert(unix(crlf + y) == nl + unix(y));
        assert(unix(stem(x)) + (nl + unix(y)) =~= unix(stem(x)) + nl + unix(y));
    } else {
        assert(x + nl + y =~= x + (nl + y));
        lemma_unix_append(x, nl + y);
        assert((nl + y).skip(1) =~= y);
        assert(unix(nl + y) == nl + unix(y));
        assert(unix(x) + (nl + unix(y)) =~= unix(x) + nl + unix(y));
    }
}

proof fn lemma_unix_joint(a: Seq<char>, b: Seq<char>)
    ensures
        unix(a + seq!['\n', '\n'] + b) == unix(stem(a)) + seq!['\n', '\n'] + unix(b),
{
    let nl = seq!['\n'];
    assert(a + seq!['\n', '\n'] + b =~= a + nl + (nl + b));
    lemma_unix_line(a, nl + b);
    assert((nl + b).skip(1) =~= b);
    assert(unix(nl + b) == nl + unix(b));
    assert(unix(stem(a)) + nl + (nl + unix(b)) =~= unix(stem(a)) + seq!['\n', '\n'] + unix(b));
}

/// The lines of two texts with a line end between them are those of both.
pub(crate) proof fn lemma_lines_joint(x: Seq<char>, y: Seq<char>)
    ensures
        text::split(x + seq!['\n'] + y, "\n"@) == text::split(x, "\n"@) + text::split(y, "\n"@),
    decreases x.len(),
{
    lemma_line_ends();
    let nl = seq!['\n'];
    let s = x + nl + y;
    text::lemma_find(x, nl);
    match text::find(x, nl) {
        Some(i) => {
            text::lemma_char_positions(s, '\n');
            text::lemma_char_positions(x, '\n');
            assert(text::occurs_at(x, nl, i));
            assert(text::occurs_at(s, nl, i));
            assert forall|j: int| 0 <= j < i implies !text::occurs_at(s, nl, j) by {
                assert(!text::occurs_at(x, nl, j));
            }
            text::lemma_least(s, nl, i);
            let r = x.skip(i + 1);
            lemma_lines_joint(r, y);
            assert(s.take(i) =~= x.take(i));
            assert(s.skip(i + 1) =~= r + nl + y);
            assert(seq![x.take(i)] + (text::split(r, nl) + text::split(y, nl)) =~= (seq![x.take(i)]
                + text::split(r, nl)) + text::split(y, nl));
        },
        None => {
            text::lemma_char_positions(s, '\n');
            text::lemma_char_positions(x, '\n');
            assert(text::find(x, nl) is None);
            text::lemma_absent(x, nl);
            assert forall|j: int| 0 <= j < x.len() implies !text::occurs_at(s, nl, j) by {
                assert(!text::occurs_at(x, nl, j));
            }
            text::lemma_least(s, nl, x.len() as int);
            assert(s.take(x.len() as int) =~= x);
            assert(s.skip(x.len() as int + 1) =~= y);
            assert(text::split(x, nl) =~= seq![x]);
        },
    }
}

/// A text without a line end is one line.
proof fn lemma_one_line(s: Seq<char>)
    requires
        forall|j: int| 0 <= j < s.len() ==> #[trigger] s[j] != '\n',
    ensures
        text::split(s, "\n"@) == seq![s],
        unix(s) == s,
    decreases s.len(),
{
    lemma_line_ends();
    text::lemma_char_positions(s, '\n');
    text::lemma_absent(s, seq!['\n']);
    assert(!text::contains(s, seq!['\n']));
    if s.len() > 0 {
        assert forall|j: int| 0 <= j < s.skip(1).len() implies #[trigger] s.skip(1)[j] != '\n' by {
            assert(s.skip(1)[j] == s[j + 1]);
        }
        lemma_one_line(s.skip(1));
        if s.len() > 1 {
            assert(s[1] != '\n');
        }
        assert(seq![s[0]] + s.skip(1) =~= s);
    }
}

proof fn lemma_trim_start_kept(l: Seq<char>, c: char)
    requires
        !text::is_blank(l),
    ensures
        text::trim_start(l.push(c)) == text::trim_start(l).push(c),
    decreases l.len(),
{
    let k = choose|k: int| 0 <= k < l.len() && !text::is_whitespace(#[trigger] l[k]);
    assert(l.push(c)[0] == l[0]);
    if text::is_whitespace(l[0]) {
        assert(l.drop_first()[k - 1] == l[k]);
        lemma_trim_start_kept(l.drop_first(), c);
        assert(l.push(c).drop_first() =~= l.drop_first().push(c));
    }
}

/// White space at the end of a line does not matter.
proof fn lemma_trim_pushed(l: Seq<char>, c: char)
    requires
        text::is_whitespace(c),
    ensures
        text::trim(l.push(c)) == text::trim(l),
        text::is_blank(l.push(c)) == text::is_blank(l),
{
    let more = l.push(c);
    assert(more[l.len() as int] == c);
    assert(forall|i: int| 0 <= i < l.len() ==> #[trigger] more[i] == l[i]);
    assert(forall|i: int| 0 <= i < l.len() ==> #[trigger] l[i] == more[i]);
    assert(text::is_blank(more) == text::is_blank(l));
    if text::is_blank(l) {
        text::lemma_trim_start_blank(l);
        text::lemma_trim_start_blank(more);
        assert(text::trim_start(l) =~= text::trim_start(more));
    } else {
        lemma_trim_start_kept(l, c);
        let z = text::trim_start(l);
        assert(z.push(c).last() == c);
        assert(z.push(c).drop_last() =~= z);
    }
}

/// What lines say depends on them without the white space at their ends.
proof fn lemma_same_lines(a: Seq<Seq<char>>, b: Seq<Seq<char>>)
    requires
        a.len() == b.len(),
        forall|i: int| 0 <= i < a.len() ==> text::trim(#[trigger] a[i]) == text::trim(b[i]),
    ensures
        sse_event::block_of(a) == sse_event::block_of(b),
    decreases a.len(),
{
    if a.len() > 0 {
        let x = a.drop_last();
        let y = b.drop_last();
        assert forall|i: int| 0 <= i < x.len() implies text::trim(#[trigger] x[i]) == text::trim(
            y[i],
        ) by {
            assert(x[i] == a[i] && y[i] == b[i]);
        }
        lemma_same_lines(x, y);
        assert(text::trim(a[a.len() - 1]) == text::trim(b[a.len() - 1]));
    }
}

/// An empty line says nothing.
proof fn lemma_empty_line(b: BlockModel)
    ensures
        b.with_line(Seq::empty()) == b,
{
    reveal_strlit("event:");
    reveal_strlit("data:");
    reveal_strlit("id:");
    assert(text::trim(Seq::empty()) =~= Seq::empty());
}

proof fn lemma_empty_line_first(lines: Seq<Seq<char>>)
    ensures
        sse_event::block_of(seq![Seq::empty()] + lines) == sse_event::block_of(lines),
    decreases lines.len(),
{
    let all = seq![Seq::<char>::empty()] + lines;
    if lines.len() == 0 {
        lemma_empty_line(BlockModel::empty());
        assert(all.drop_last() =~= Seq::empty());
        assert(all.last() =~= Seq::empty());
        assert(lines =~= Seq::empty());
        assert(sse_event::block_of(all) == sse_event::block_of(all.drop_last()).with_line(
            all.last(),
        ));
    } else {
        lemma_empty_line_first(lines.drop_last());
        assert(all.drop_last() =~= seq![Seq::<char>::empty()] + lines.drop_last());
        assert(all.last() == lines.last());
    }
}

proof fn lemma_empty_text()
    ensures
        text::split(Seq::empty(), "\n"@) == seq![Seq::<char>::empty()],
{
    lemma_one_line(Seq::empty());
}

/// A line end before a block does not matter.
proof fn lemma_newline_first(x: Seq<char>)
    ensures
        sse_event::block_event(seq!['\n'] + x) == sse_event::block_event(x),
{
    let nl = seq!['\n'];
    let s = nl + x;
    assert(Seq::<char>::empty() + nl + x =~= s);
    lemma_lines_joint(Seq::empty(), x);
    lemma_empty_text();
    lemma_empty_line_first(text::split(x, "\n"@));
    assert(s[0] == '\n');
    assert(forall|i: int| 0 <= i < x.len() ==> #[trigger] x[i] == s[i + 1]);
    assert(text::is_blank(s) == text::is_blank(x)) by {
        if text::is_blank(x) {
            assert forall|i: int| 0 <= i < s.len() implies text::is_whitespace(#[trigger] s[i]) by {
                if i > 0 {
                    assert(s[i] == x[i - 1]);
                }
            }
        }
    }
}

/// A line end after a block does not matter.
proof fn lemma_newline_last(x: Seq<char>)
    ensures
        sse_event::block_event(x.push('\n')) == sse_event::block_event(x),
{
    let nl = seq!['\n'];
    let lines = text::split(x, "\n"@);
    assert(x + nl + Seq::<char>::empty() =~= x.push('\n'));
    lemma_lines_joint(x, Seq::empty());
    lemma_empty_text();
    let all = lines + seq![Seq::<char>::empty()];
    assert(all.drop_last() =~= lines);
    lemma_empty_line(sse_event::block_of(lines));
    lemma_trim_pushed(x, '\n');
}

proof fn lemma_lines_return(x: Seq<char>)
    ensures
        ({
            let lines = text::split(x, "\n"@);
            &&& lines.len() > 0
            &&& text::split(x.push('\r'), "\n"@) == lines.drop_last().push(lines.last().push('\r'))
        }),
    decreases x.len(),
{
    lemma_line_ends();
    let nl = seq!['\n'];
    let s = x.push('\r');
    let lines = text::split(x, nl);
    text::lemma_char_positions(x, '\n');
    text::lemma_char_positions(s, '\n');
    text::lemma_find(x, nl);
    match text::find(x, nl) {
        Some(i) => {
            assert(text::occurs_at(x, nl, i));
            assert(text::occurs_at(s, nl, i));
            assert forall|j: int| 0 <= j < i implies !text::occurs_at(s, nl, j) by {
                assert(!text::occurs_at(x, nl, j));
            }
            text::lemma_least(s, nl, i);
            lemma_lines_return(x.skip(i + 1));
            let rest = text::split(x.skip(i + 1), nl);
            assert(s.take(i) =~= x.take(i));
            assert(s.skip(i + 1) =~= x.skip(i + 1).push('\r'));
            assert(lines =~= seq![x.take(i)] + rest);
            assert(text::split(s, nl) =~= lines.drop_last().push(lines.last().push('\r')));
        },
        None => {
            assert(!text::contains(s, nl)) by {
                if text::contains(s, nl) {
                    let j = choose|j: int| text::occurs_at(s, nl, j);
                    assert(text::occurs_at(x, nl, j));
                }
            }
            text::lemma_absent(s, nl);
            assert(lines =~= seq![x]);
            assert(text::split(s, nl) =~= lines.drop_last().push(lines.last().push('\r')));
        },
    }
}

/// A `\r` at the end of a block does not matter.
proof fn lemma_return_last(x: Seq<char>)
    ensures
        sse_event::block_event(x.push('\r')) == sse_event::block_event(x),
{
    let lines = text::split(x, "\n"@);
    let more = text::split(x.push('\r'), "\n"@);
    lemma_lines_return(x);
    lemma_trim_pushed(lines.last(), '\r');
    lemma_trim_pushed(x, '\r');
    assert forall|i: int| 0 <= i < more.len() implies text::trim(#[trigger] more[i]) == text::trim(
        lines[i],
    ) by {
        if i < more.len() - 1 {
            assert(more[i] == lines[i]);
        }
    }
    lemma_same_lines(more, lines);
}

proof fn lemma_events_append(a: Seq<Seq<char>>, b: Seq<Seq<char>>)
    ensures
        sse_event::events_of_blocks(a + b) == sse_event::events_of_blocks(a)
            + sse_event::events_of_blocks(b),
    decreases b.len(),
{
    if b.len() == 0 {
        assert(a + b =~= a);
        assert(sse_event::events_of_blocks(a) + sse_event::events_of_blocks(b)
            =~= sse_event::events_of_blocks(a));
    } else {
        lemma_events_append(a, b.drop_last());
        assert((a + b).drop_last() =~= a + b.drop_last());
        assert((a + b).last() == b.last());
        assert(sse_event::events_of_blocks(a + b) =~= sse_event::events_of_blocks(a)
            + sse_event::events_of_blocks(b));
    }
}

/// The events of blocks of which the first is put in the place of another with the same event.
proof fn lemma_first_block(a: Seq<char>, b: Seq<char>, rest: Seq<Seq<char>>)
    requires
        sse_event::block_event(a) == sse_event::block_event(b),
    ensures
        sse_event::events_of_blocks(seq![a] + rest) == sse_event::events_of_blocks(seq![b] + rest),
{
    lemma_events_append(seq![a], rest);
    lemma_events_append(seq![b], rest);
    assert(seq![a].drop_last() =~= seq![b].drop_last());
    assert(sse_event::events_of_blocks(seq![a]) == sse_event::events_of_blocks(seq![b]));
}

/// A blank block has no event.
proof fn lemma_blank_block(rest: Seq<Seq<char>>)
    ensures
        sse_event::events_of_blocks(seq![Seq::empty()] + rest) == sse_event::events_of_blocks(rest),
{
    let blank = seq![Seq::<char>::empty()];
    lemma_events_append(blank, rest);
    assert(text::is_blank(blank.last()));
    assert(sse_event::events_of_blocks(blank.drop_last()) =~= Seq::empty());
    assert(sse_event::events_of_blocks(blank) =~= Seq::empty());
    assert(sse_event::events_of_blocks(blank) + sse_event::events_of_blocks(rest)
        =~= sse_event::events_of_blocks(rest));
}

/// The events in a text that has `\n` as its line ends.
spec fn unix_events(s: Seq<char>) -> Seq<SseEventModel> {
    sse_event::events_of_blocks(text::split(s, "\n\n"@))
}

/// Where the blank line stands.
pub(crate) proof fn lemma_blank_line_positions(s: Seq<char>)
    ensures
        forall|j: int| #[trigger]
            text::occurs_at(s, "\n\n"@, j) <==> (0 <= j && j + 1 < s.len() && s[j] == '\n' && s[j
                + 1] == '\n'),
{
    lemma_line_ends();
    let p = seq!['\n', '\n'];
    assert forall|j: int| #[trigger] text::occurs_at(s, p, j) <==> (0 <= j && j + 1 < s.len()
        && s[j] == '\n' && s[j + 1] == '\n') by {
        if 0 <= j && j + 2 <= s.len() {
            assert(s.subrange(j, j + 2)[0] == s[j]);
            assert(s.subrange(j, j + 2)[1] == s[j + 1]);
            if s[j] == '\n' && s[j + 1] == '\n' {
                assert(s.subrange(j, j + 2) =~= p);
            }
        }
    }
}

/// A line end before a text does not matter.
proof fn lemma_leading(q: Seq<char>)
    ensures
        unix_events(seq!['\n'] + q) == unix_events(q),
    decreases q.len(),
{
    lemma_line_ends();
    let s = seq!['\n'] + q;
    lemma_blank_line_positions(s);
    if q.len() > 0 && q[0] == '\n' {
        let r = q.skip(1);
        assert(text::occurs_at(s, "\n\n"@, 0));
        text::lemma_least(s, "\n\n"@, 0);
        assert(s.take(0) =~= Seq::empty());
        assert(s.skip(2) =~= r);
        lemma_blank_block(text::split(r, "\n\n"@));
        lemma_leading(r);
        assert(seq!['\n'] + r =~= q);
    } else {
        assert(!text::occurs_at(s, "\n\n"@, 0));
        lemma_split_step(s, "\n\n"@);
        assert(s.skip(1) =~= q);
        let blocks = text::split(q, "\n\n"@);
        let rest = blocks.drop_first();
        lemma_newline_first(blocks[0]);
        assert(blocks =~= seq![blocks[0]] + rest);
        assert(blocks.update(0, seq!['\n'] + blocks[0]) =~= seq![seq!['\n'] + blocks[0]] + rest);
        lemma_first_block(seq!['\n'] + blocks[0], blocks[0], rest);
    }
}

/// The events in a text are those of what stands before its first blank line, and of what follows.
proof fn lemma_first_cut(s: Seq<char>, i: int)
    requires
        text::occurs_at(s, "\n\n"@, i),
        forall|j: int| 0 <= j < i ==> !text::occurs_at(s, "\n\n"@, j),
    ensures
        unix_events(s) == sse_event::events_of_blocks(seq![s.take(i)]) + unix_events(s.skip(i + 2)),
{
    lemma_line_ends();
    text::lemma_least(s, "\n\n"@, i);
    lemma_events_append(seq![s.take(i)], text::split(s.skip(i + 2), "\n\n"@));
}

/// A text without a blank line is one block.
proof fn lemma_one_block(s: Seq<char>)
    requires
        !text::contains(s, "\n\n"@),
    ensures
        unix_events(s) == sse_event::events_of_blocks(seq![s]),
{
    text::lemma_absent(s, "\n\n"@);
    lemma_line_ends();
    assert(text::split(s, "\n\n"@) =~= seq![s]);
}

proof fn lemma_same_block(a: Seq<char>, b: Seq<char>)
    requires
        sse_event::block_event(a) == sse_event::block_event(b),
    ensures
        sse_event::events_of_blocks(seq![a]) == sse_event::events_of_blocks(seq![b]),
{
    assert(seq![a].drop_last() =~= seq![b].drop_last());
}

/// Where a text without a blank line is followed by one, no blank line stands before its end.
proof fn lemma_no_blank_line_before(p: Seq<char>, q: Seq<char>, j: int)
    requires
        !text::contains(p, "\n\n"@),
        0 <= j,
        j + 1 < p.len() || (j + 1 == p.len() && p.last() != '\n'),
    ensures
        !text::occurs_at(p + "\n\n"@ + q, "\n\n"@, j),
{
    lemma_line_ends();
    let s = p + "\n\n"@ + q;
    lemma_blank_line_positions(s);
    lemma_blank_line_positions(p);
    assert(!text::occurs_at(p, "\n\n"@, j));
    assert(s[j] == p[j]);
    if j + 1 < p.len() {
        assert(s[j + 1] == p[j + 1]);
    }
}

proof fn lemma_joint_after_line_end(p: Seq<char>, q: Seq<char>)
    requires
        !text::contains(p, "\n\n"@),
        p.len() > 0,
        p.last() == '\n',
    ensures
        unix_events(p + "\n\n"@ + q) == unix_events(p) + unix_events(q),
{
    let s = p + "\n\n"@ + q;
    let n = p.len() as int;
    let h = p.drop_last();
    assert forall|j: int| 0 <= j < n - 1 implies !text::occurs_at(s, "\n\n"@, j) by {
        lemma_no_blank_line_before(p, q, j);
    }
    assert(text::occurs_at(s, "\n\n"@, n - 1)) by {
        lemma_line_ends();
        lemma_blank_line_positions(s);
        assert(s[n - 1] == '\n' && s[n] == '\n');
    }
    lemma_first_cut(s, n - 1);
    assert(s.take(n - 1) =~= h);
    assert(s.skip(n + 1) =~= seq!['\n'] + q) by {
        lemma_line_ends();
    }
    lemma_leading(q);
    lemma_newline_last(h);
    assert(h.push('\n') =~= p);
    lemma_same_block(h, p);
    lemma_one_block(p);
}

proof fn lemma_joint_one_block(p: Seq<char>, q: Seq<char>)
    requires
        !text::contains(p, "\n\n"@),
    ensures
        unix_events(p + "\n\n"@ + q) == unix_events(p) + unix_events(q),
{
    if p.len() > 0 && p.last() == '\n' {
        lemma_joint_after_line_end(p, q);
    } else {
        let s = p + "\n\n"@ + q;
        let n = p.len() as int;
        assert forall|j: int| 0 <= j < n implies !text::occurs_at(s, "\n\n"@, j) by {
            lemma_no_blank_line_before(p, q, j);
        }
        assert(text::occurs_at(s, "\n\n"@, n)) by {
            lemma_line_ends();
            assert(s.subrange(n, n + 2) =~= "\n\n"@);
        }
        lemma_first_cut(s, n);
        assert(s.take(n) =~= p);
        assert(s.skip(n + 2) =~= q) by {
            lemma_line_ends();
        }
        lemma_one_block(p);
    }
}

/// The events of two texts with a blank line between them are those of both.
proof fn lemma_joint(p: Seq<char>, q: Seq<char>)
    ensures
        unix_events(p + seq!['\n', '\n'] + q) == unix_events(p) + unix_events(q),
    decreases p.len(),
{
    lemma_line_ends();
    let bl = "\n\n"@;
    text::lemma_find(p, bl);
    match text::find(p, bl) {
        Some(i) => {
            let s = p + bl + q;
            let r = p.skip(i + 2);
            lemma_blank_line_positions(s);
            lemma_blank_line_positions(p);
            assert forall|j: int| 0 <= j < i implies !text::occurs_at(s, bl, j) by {
                assert(!text::occurs_at(p, bl, j));
                assert(s[j] == p[j] && s[j + 1] == p[j + 1]);
            }
            assert(text::occurs_at(p, bl, i));
            assert(s[i] == p[i] && s[i + 1] == p[i + 1]);
            assert(text::occurs_at(s, bl, i));
            lemma_first_cut(s, i);
            lemma_first_cut(p, i);
            assert(s.take(i) =~= p.take(i));
            assert(s.skip(i + 2) =~= r + bl + q);
            lemma_joint(r, q);
            let first = sse_event::events_of_blocks(seq![p.take(i)]);
            assert(first + (unix_events(r) + unix_events(q)) =~= (first + unix_events(r))
                + unix_events(q));
        },
        None => {
            lemma_joint_one_block(p, q);
        },
    }
}

/// A `\r` at the end of a text does not matter.
proof fn lemma_return_at_end(t: Seq<char>)
    ensures
        unix_events(t.push('\r')) == unix_events(t),
    decreases t.len(),
{
    lemma_line_ends();
    let bl = "\n\n"@;
    let s = t.push('\r');
    lemma_blank_line_positions(s);
    lemma_blank_line_positions(t);
    text::lemma_find(t, bl);
    match text::find(t, bl) {
        Some(i) => {
            assert forall|j: int| 0 <= j < i implies !text::occurs_at(s, bl, j) by {
                assert(!text::occurs_at(t, bl, j));
            }
            assert(text::occurs_at(t, bl, i));
            assert(text::occurs_at(s, bl, i));
            lemma_first_cut(s, i);
            lemma_first_cut(t, i);
            assert(s.take(i) =~= t.take(i));
            assert(s.skip(i + 2) =~= t.skip(i + 2).push('\r'));
            lemma_return_at_end(t.skip(i + 2));
        },
        None => {
            assert(!text::contains(s, bl)) by {
                if text::contains(s, bl) {
                    let j = choose|j: int| text::occurs_at(s, bl, j);
                    assert(text::occurs_at(t, bl, j));
                }
            }
            lemma_one_block(s);
            lemma_one_block(t);
            lemma_return_last(t);
            lemma_same_block(s, t);
        },
    }
}

/// The events of two texts with a blank line between them are the events of the first, followed by
/// those of the second.
pub proof fn law_texts_joined_by_a_blank_line_give_the_events_of_both(a: Seq<char>, b: Seq<char>)
    ensures
        sse_event::events_in_chunk(a + "\n\n"@ + b) == sse_event::events_in_chunk(a)
            + sse_event::events_in_chunk(b),
{
    lemma_line_ends();
    lemma_unix(a + "\n\n"@ + b);
    lemma_unix(a);
    lemma_unix(b);
    lemma_unix_joint(a, b);
    lemma_joint(unix(stem(a)), unix(b));
    lemma_unix_stem(a);
    lemma_return_at_end(unix(stem(a)));
}

/// A blank line in a text written with `\n` was one before, or it held a `\r` alone.
proof fn lemma_unix_blank_line(s: Seq<char>, k: int)
    requires
        text::occurs_at(unix(s), "\n\n"@, k),
    ensures
        text::contains(s, "\n\n"@) || text::contains(s, "\n\r\n"@),
    decreases s.len(),
{
    lemma_line_ends();
    let u = unix(s);
    lemma_blank_line_positions(u);
    let n: int = if s.len() >= 2 && s[0] == '\r' && s[1] == '\n' {
        2
    } else {
        1
    };
    let tail = s.skip(n);
    let v = unix(tail);
    assert(u.skip(1) =~= v);
    if k > 0 {
        lemma_blank_line_positions(v);
        assert(v[k - 1] == u[k] && v[k] == u[k + 1]);
        assert(text::occurs_at(v, "\n\n"@, k - 1));
        lemma_unix_blank_line(tail, k - 1);
        assert(tail =~= s.subrange(n, s.len() as int));
        if text::contains(tail, "\n\n"@) {
            text::lemma_part_contains(s, n, s.len() as int, "\n\n"@);
        } else {
            text::lemma_part_contains(s, n, s.len() as int, "\n\r\n"@);
        }
    } else {
        assert(u[0] == '\n' && v[0] == u[1]);
        assert(s[n - 1] == '\n');
        if tail[0] == '\n' {
            assert(s[n] == tail[0]);
            assert(s.subrange(n - 1, n + 1) =~= "\n\n"@);
            assert(text::occurs_at(s, "\n\n"@, n - 1));
        } else {
            assert(s[n] == tail[0] && s[n + 1] == tail[1]);
            assert(s.subrange(n - 1, n + 2) =~= "\n\r\n"@);
            assert(text::occurs_at(s, "\n\r\n"@, n - 1));
        }
    }
}

/// A line that is a `\r` alone in a text written with `\n` was one of two before.
proof fn lemma_unix_return_line(s: Seq<char>, k: int)
    requires
        text::occurs_at(unix(s), "\n\r\n"@, k),
    ensures
        text::contains(s, "\n\r\r\n"@),
    decreases s.len(),
{
    lemma_line_ends();
    let u = unix(s);
    let n: int = if s.len() >= 2 && s[0] == '\r' && s[1] == '\n' {
        2
    } else {
        1
    };
    let tail = s.skip(n);
    let v = unix(tail);
    assert(u.skip(1) =~= v);
    let part = u.subrange(k, k + 3);
    assert(part[0] == u[k] && part[1] == u[k + 1] && part[2] == u[k + 2]);
    if k > 0 {
        assert(v.subrange(k - 1, k + 2) =~= u.subrange(k, k + 3));
        assert(text::occurs_at(v, "\n\r\n"@, k - 1));
        lemma_unix_return_line(tail, k - 1);
        assert(tail =~= s.subrange(n, s.len() as int));
        text::lemma_part_contains(s, n, s.len() as int, "\n\r\r\n"@);
    } else {
        assert(v[0] == u[1] && v[1] == u[2]);
        assert(s[n - 1] == '\n');
        assert(tail[0] == '\r');
        let rest = tail.skip(1);
        assert(v == seq!['\r'] + unix(rest));
        assert(unix(rest)[0] == v[1]);
        assert(rest[0] == tail[1]);
        assert(rest[0] == '\r' && rest[1] == '\n');
        assert(tail[2] == rest[1]);
        assert(s[n] == tail[0] && s[n + 1] == tail[1] && s[n + 2] == tail[2]);
        assert(s.subrange(n - 1, n + 3) =~= "\n\r\r\n"@);
        assert(text::occurs_at(s, "\n\r\r\n"@, n - 1));
    }
}

proof fn lemma_unix_blank(s: Seq<char>)
    ensures
        text::is_blank(unix(s)) == text::is_blank(s),
    decreases s.len(),
{
    if s.len() > 0 {
        let n: int = if s.len() >= 2 && s[0] == '\r' && s[1] == '\n' {
            2
        } else {
            1
        };
        let tail = s.skip(n);
        let u = unix(s);
        let v = unix(tail);
        lemma_unix_blank(tail);
        assert(forall|i: int| 0 <= i < v.len() ==> #[trigger] v[i] == u[i + 1]);
        assert(forall|i: int| 0 <= i < tail.len() ==> #[trigger] tail[i] == s[i + n]);
        assert(text::is_whitespace(u[0]) == text::is_whitespace(s[0]));
        if text::is_blank(v) && text::is_whitespace(u[0]) {
            assert forall|i: int| 0 <= i < u.len() implies text::is_whitespace(#[trigger] u[i]) by {
                if i > 0 {
                    assert(u[i] == v[i - 1]);
                }
            }
        }
        if text::is_blank(tail) && text::is_whitespace(s[0]) {
            assert forall|i: int| 0 <= i < s.len() implies text::is_whitespace(#[trigger] s[i]) by {
                if i >= n {
                    assert(s[i] == tail[i - n]);
                }
            }
        }
    }
}

/// The lines of a text written with `\n` are those of the text, up to white space at their ends.
proof fn lemma_unix_lines(h: Seq<char>)
    ensures
        ({
            let a = text::split(h, "\n"@);
            let b = text::split(unix(h), "\n"@);
            &&& a.len() == b.len()
            &&& forall|i: int| 0 <= i < a.len() ==> text::trim(#[trigger] a[i]) == text::trim(b[i])
        }),
    decreases h.len(),
{
    lemma_line_ends();
    let nl = seq!['\n'];
    text::lemma_char_positions(h, '\n');
    text::lemma_find(h, nl);
    match text::find(h, nl) {
        Some(i) => {
            let l = h.take(i);
            let r = h.skip(i + 1);
            assert(text::occurs_at(h, nl, i));
            assert(h =~= l + nl + r);
            assert forall|j: int| 0 <= j < l.len() implies #[trigger] l[j] != '\n' by {
                assert(!text::occurs_at(h, nl, j));
            }
            assert forall|j: int| 0 <= j < stem(l).len() implies #[trigger] stem(l)[j] != '\n' by {
                assert(stem(l)[j] == l[j]);
            }
            lemma_unix_line(l, r);
            lemma_one_line(l);
            lemma_one_line(stem(l));
            lemma_lines_joint(l, r);
            lemma_lines_joint(stem(l), unix(r));
            lemma_unix_lines(r);
            assert(text::trim(l) == text::trim(stem(l))) by {
                if l.len() > 0 && l.last() == '\r' {
                    assert(stem(l).push('\r') =~= l);
                    lemma_trim_pushed(stem(l), '\r');
                }
            }
            let a = text::split(h, nl);
            let b = text::split(unix(h), nl);
            assert forall|k: int| 0 <= k < a.len() implies text::trim(#[trigger] a[k]) == text::trim(
                b[k],
            ) by {
                if k > 0 {
                    assert(a[k] == text::split(r, nl)[k - 1]);
                    assert(b[k] == text::split(unix(r), nl)[k - 1]);
                }
            }
        },
        None => {
            assert forall|j: int| 0 <= j < h.len() implies #[trigger] h[j] != '\n' by {
                assert(!text::occurs_at(h, nl, j));
            }
            lemma_one_line(h);
        },
    }
}

/// A block says the same with either kind of line end.
proof fn lemma_unix_block(h: Seq<char>)
    requires
        !text::contains(h, "\n\n"@),
        !text::contains(h, "\n\r\n"@),
    ensures
        unix_events(unix(h)) == sse_event::events_of_blocks(seq![h]),
{
    assert(!text::contains(unix(h), "\n\n"@)) by {
        if text::contains(unix(h), "\n\n"@) {
            let k = choose|k: int| text::occurs_at(unix(h), "\n\n"@, k);
            lemma_unix_blank_line(h, k);
        }
    }
    lemma_one_block(unix(h));
    lemma_unix_lines(h);
    lemma_same_lines(text::split(h, "\n"@), text::split(unix(h), "\n"@));
    lemma_unix_blank(h);
    lemma_same_block(unix(h), h);
}

proof fn lemma_stem_contains(h: Seq<char>, p: Seq<char>)
    requires
        !text::contains(h, p),
    ensures
        !text::contains(stem(h), p),
{
    if text::contains(stem(h), p) {
        assert(stem(h) =~= h.subrange(0, stem(h).len() as int));
        text::lemma_part_contains(h, 0, stem(h).len() as int, p);
    }
}

/// The events of a text are the same with either kind of line end, unless a line is a `\r` alone.
proof fn lemma_unix_events(t: Seq<char>)
    requires
        !text::contains(t, "\n\r\n"@),
    ensures
        unix_events(unix(t)) == unix_events(t),
    decreases t.len(),
{
    lemma_line_ends();
    let bl = "\n\n"@;
    text::lemma_find(t, bl);
    match text::find(t, bl) {
        Some(i) => {
            let h = t.take(i);
            let r = t.skip(i + 2);
            assert(t.subrange(i, i + 2) =~= bl);
            assert(t =~= h + bl + r);
            lemma_first_cut(t, i);
            assert(!text::contains(h, bl)) by {
                if text::contains(h, bl) {
                    let k = choose|k: int| text::occurs_at(h, bl, k);
                    assert(h.subrange(k, k + 2) =~= t.subrange(k, k + 2));
                    assert(text::occurs_at(t, bl, k));
                }
            }
            assert(!text::contains(h, "\n\r\n"@)) by {
                if text::contains(h, "\n\r\n"@) {
                    assert(h =~= t.subrange(0, i));
                    text::lemma_part_contains(t, 0, i, "\n\r\n"@);
                }
            }
            assert(!text::contains(r, "\n\r\n"@)) by {
                if text::contains(r, "\n\r\n"@) {
                    assert(r =~= t.subrange(i + 2, t.len() as int));
                    text::lemma_part_contains(t, i + 2, t.len() as int, "\n\r\n"@);
                }
            }
            lemma_unix_joint(h, r);
            lemma_joint(unix(stem(h)), unix(r));
            lemma_unix_events(r);
            lemma_stem_contains(h, bl);
            lemma_stem_contains(h, "\n\r\n"@);
            lemma_unix_block(stem(h));
            if h.len() > 0 && h.last() == '\r' {
                assert(stem(h).push('\r') =~= h);
                lemma_return_last(stem(h));
                lemma_same_block(stem(h), h);
            }
        },
        None => {
            lemma_one_block(t);
            lemma_unix_block(t);
        },
    }
}

/// A text gives the same events once each `\r\n` in it is written as `\n`. Texts with a line that is
/// one `\r` before its `\r\n` are left out: that line counts as one in the text as it is, and as a
/// blank one in the text written anew.
pub proof fn law_line_ends_do_not_matter(content: Seq<char>)
    requires
        !text::contains(content, "\n\r\r\n"@),
    ensures
        sse_event::events_in_chunk(text::replace(content, "\r\n"@, "\n"@))
            == sse_event::events_in_chunk(content),
{
    let t = unix(content);
    lemma_unix(content);
    lemma_unix(t);
    assert(!text::contains(t, "\n\r\n"@)) by {
        if text::contains(t, "\n\r\n"@) {
            let k = choose|k: int| text::occurs_at(t, "\n\r\n"@, k);
            lemma_unix_return_line(content, k);
        }
    }
    lemma_unix_events(t);
}

/// The event has a name or data. Its data stand once more in it, as a value where they are JSON and
/// as text where they are not; without data there is neither.
pub open spec fn holds_its_data(e: SseEventModel) -> bool {
    &&& e.event is Some || e.data is Some
    &&& e.data is Some <==> (e.parsed_data is Some || e.raw_data is Some)
    &&& !(e.parsed_data is Some && e.raw_data is Some)
    &&& e.parsed_data is Some ==> e.parsed_data == json::parsed(e.data->0)
    &&& e.raw_data is Some ==> e.raw_data == e.data && json::parsed(e.data->0) is None
}

proof fn lemma_blocks_hold_their_data(blocks: Seq<Seq<char>>)
    ensures
        forall|i: int|
            0 <= i < sse_event::events_of_blocks(blocks).len() ==> holds_its_data(
                #[trigger] sse_event::events_of_blocks(blocks)[i],
            ),
    decreases blocks.len(),
{
    if blocks.len() > 0 {
        let all = sse_event::events_of_blocks(blocks);
        let before = sse_event::events_of_blocks(blocks.drop_last());
        lemma_blocks_hold_their_data(blocks.drop_last());
        assert forall|i: int| 0 <= i < all.len() implies holds_its_data(#[trigger] all[i]) by {
            if i < before.len() {
                assert(all[i] == before[i]);
            }
        }
    }
}

/// Every event that is read holds its data exactly once more: as a value or as text.
pub proof fn law_events_hold_their_data(content: Seq<char>)
    ensures
        forall|i: int|
            0 <= i < sse_event::events_in_chunk(content).len() ==> holds_its_data(
                #[trigger] sse_event::events_in_chunk(content)[i],
            ),
        forall|i: int|
            0 <= i < sse_event::events_in(content).len() ==> holds_its_data(
                #[trigger] sse_event::events_in(content)[i],
            ),
{
    lemma_blocks_hold_their_data(sse_event::blocks_of(content));
    lemma_blocks_hold_their_data(sse_event::blocks_of(sse_event::without_sizes(content)));
}

} // verus!
