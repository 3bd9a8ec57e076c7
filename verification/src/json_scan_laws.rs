//! Laws of finding values in pieces of JSON: what is written as an object or as a string is found
//! as it was written.

use crate::json;
use crate::json::Json;
use crate::json_scan;
use crate::json_scan::Scan;
use crate::text;
use vstd::prelude::*;

verus! {

/// What may stand between the braces of an object.
pub enum Inside {
    Nothing,
    Plain(char, Box<Inside>),
    Quoted(Seq<char>, Box<Inside>),
    Braced(Box<Inside>, Box<Inside>),
}

/// A text as it is written between quotes: quotes and backslashes have a backslash before them.
pub open spec fn escaped(s: Seq<char>) -> Seq<char>
    decreases s.len(),
{
    if s.len() == 0 {
        s
    } else if s[0] == '"' || s[0] == '\\' {
        seq!['\\', s[0]] + escaped(s.drop_first())
    } else {
        seq![s[0]] + escaped(s.drop_first())
    }
}

/// Plain characters are neither quotes nor braces.
pub open spec fn is_plain(b: Inside) -> bool
    decreases b,
{
    match b {
        Inside::Nothing => true,
        Inside::Plain(c, rest) => c != '"' && c != '{' && c != '}' && is_plain(*rest),
        Inside::Quoted(_, rest) => is_plain(*rest),
        Inside::Braced(inner, rest) => is_plain(*inner) && is_plain(*rest),
    }
}

/// What stands between the braces, written out.
pub open spec fn written(b: Inside) -> Seq<char>
    decreases b,
{
    match b {
        Inside::Nothing => Seq::empty(),
        Inside::Plain(c, rest) => seq![c] + written(*rest),
        Inside::Quoted(t, rest) => seq!['"'] + escaped(t) + seq!['"'] + written(*rest),
        Inside::Braced(inner, rest) => seq!['{'] + written(*inner) + seq!['}'] + written(*rest),
    }
}

/// `p` stands in `s` at `i`.
spec fn stands(s: Seq<char>, i: int, p: Seq<char>) -> bool {
    0 <= i && i + p.len() <= s.len() && forall|k: int| 0 <= k < p.len() ==> s[i + k] == #[trigger] p[k]
}

proof fn lemma_stands(s: Seq<char>, i: int, p: Seq<char>, q: Seq<char>)
    requires
        stands(s, i, p + q),
    ensures
        stands(s, i, p),
        stands(s, i + p.len(), q),
{
    assert forall|k: int| 0 <= k < p.len() implies s[i + k] == #[trigger] p[k] by {
        assert((p + q)[k] == p[k]);
    }
    assert forall|k: int| 0 <= k < q.len() implies s[i + p.len() + k] == #[trigger] q[k] by {
        assert((p + q)[p.len() + k] == q[k]);
    }
}

proof fn lemma_in_string(s: Seq<char>, i: int, t: Seq<char>, depth: nat)
    requires
        stands(s, i, escaped(t)),
    ensures
        json_scan::object_end(s, i, Scan { depth, in_string: true, escape: false })
            == json_scan::object_end(
            s,
            i + escaped(t).len(),
            Scan { depth, in_string: true, escape: false },
        ),
    decreases t.len(),
{
    if t.len() > 0 {
        let rest = escaped(t.drop_first());
        let scan = Scan { depth, in_string: true, escape: false };
        if t[0] == '"' || t[0] == '\\' {
            let two = seq!['\\', t[0]];
            lemma_stands(s, i, two, rest);
            assert(s[i] == two[0] && s[i + 1] == two[1]);
            lemma_in_string(s, i + 2, t.drop_first(), depth);
            assert(scan.step('\\') == (Scan { depth, in_string: true, escape: true }));
            assert(json_scan::object_end(s, i, scan) == json_scan::object_end(
                s,
                i + 1,
                scan.step('\\'),
            ));
            assert(scan.step('\\').step(t[0]) == scan);
            assert(json_scan::object_end(s, i + 1, scan.step('\\')) == json_scan::object_end(
                s,
                i + 2,
                scan,
            ));
        } else {
            let one = seq![t[0]];
            lemma_stands(s, i, one, rest);
            assert(s[i] == one[0]);
            lemma_in_string(s, i + 1, t.drop_first(), depth);
            assert(scan.step(t[0]) == scan);
        }
    }
}

/// A scan that has opened an object passes over what stands in it.
proof fn lemma_inside(s: Seq<char>, i: int, b: Inside, depth: nat)
    requires
        is_plain(b),
        stands(s, i, written(b)),
        depth > 0,
    ensures
        json_scan::object_end(s, i, Scan { depth, in_string: false, escape: false })
            == json_scan::object_end(
            s,
            i + written(b).len(),
            Scan { depth, in_string: false, escape: false },
        ),
    decreases b,
{
    let scan = Scan { depth, in_string: false, escape: false };
    match b {
        Inside::Nothing => {},
        Inside::Plain(c, rest) => {
            let one = seq![c];
            lemma_stands(s, i, one, written(*rest));
            assert(s[i] == one[0]);
            assert(scan.step(c) == scan);
            lemma_inside(s, i + 1, *rest, depth);
        },
        Inside::Quoted(t, rest) => {
            let q = seq!['"'];
            let e = escaped(t);
            let n = e.len() as int;
            let inside = Scan { depth, in_string: true, escape: false };
            lemma_stands(s, i, q + e + q, written(*rest));
            lemma_stands(s, i, q + e, q);
            lemma_stands(s, i, q, e);
            assert(s[i] == q[0]);
            assert(s[i + 1 + n] == q[0]);
            assert(scan.step('"') == inside);
            assert(json_scan::object_end(s, i, scan) == json_scan::object_end(s, i + 1, inside));
            lemma_in_string(s, i + 1, t, depth);
            assert(inside.step('"') == scan);
            assert(json_scan::object_end(s, i + 1 + n, inside) == json_scan::object_end(
                s,
                i + 2 + n,
                scan,
            ));
            lemma_inside(s, i + 2 + n, *rest, depth);
        },
        Inside::Braced(inner, rest) => {
            let open = seq!['{'];
            let close = seq!['}'];
            let w = written(*inner);
            let n = w.len() as int;
            let deeper = Scan { depth: depth + 1, in_string: false, escape: false };
            lemma_stands(s, i, open + w + close, written(*rest));
            lemma_stands(s, i, open + w, close);
            lemma_stands(s, i, open, w);
            assert(s[i] == open[0]);
            assert(s[i + 1 + n] == close[0]);
            assert(scan.step('{') == deeper);
            assert(json_scan::object_end(s, i, scan) == json_scan::object_end(s, i + 1, deeper));
            lemma_inside(s, i + 1, *inner, depth + 1);
            assert(deeper.step('}') == scan);
            assert(json_scan::object_end(s, i + 1 + n, deeper) == json_scan::object_end(
                s,
                i + 2 + n,
                scan,
            ));
            lemma_inside(s, i + 2 + n, *rest, depth);
        },
    }
}

/// The first position of a pattern that does not stand before.
proof fn lemma_first(s: Seq<char>, p: Seq<char>, k: int)
    requires
        p.len() > 0,
        text::occurs_at(s, p, k),
        !text::contains(s.take(k + p.len() - 1), p),
    ensures
        text::find(s, p) == Some(k),
{
    let head = s.take(k + p.len() - 1);
    assert forall|j: int| 0 <= j < k implies !text::occurs_at(s, p, j) by {
        if text::occurs_at(s, p, j) {
            assert(head.subrange(j, j + p.len()) =~= s.subrange(j, j + p.len()));
            assert(text::occurs_at(head, p, j));
        }
    }
    text::lemma_least(s, p, k);
}

/// The object that follows on the first place of a key is found whole: from its brace to the one
/// that closes it, whatever strings and objects stand in it and whatever follows.
pub proof fn law_objects_are_found_whole(
    a: Seq<char>,
    key: Seq<char>,
    gap: Seq<char>,
    b: Inside,
    rest: Seq<char>,
)
    requires
        key.len() > 0,
        !text::contains(a + key.drop_last(), key),
        forall|i: int| 0 <= i < key.len() ==> #[trigger] key[i] != '{',
        forall|i: int| 0 <= i < gap.len() ==> #[trigger] gap[i] != '{',
        is_plain(b),
    ensures
        json_scan::object_text(
            a + key + gap + (seq!['{'] + written(b) + seq!['}']) + rest,
            key,
        ) == Some(seq!['{'] + written(b) + seq!['}']),
{
    let open = seq!['{'];
    let close = seq!['}'];
    let w = written(b);
    let object = open + w + close;
    let s = a + key + gap + object + rest;
    let k = a.len() as int;
    let j = (key.len() + gap.len()) as int;
    let start = k + j;
    assert(s.subrange(k, k + key.len()) =~= key);
    assert(s.take(k + key.len() - 1) =~= a + key.drop_last());
    lemma_first(s, key, k);
    reveal_strlit("{");
    assert("{"@ =~= open);
    let after = s.skip(k);
    text::lemma_char_positions(after, '{');
    assert(after[j] == object[0]);
    assert(text::occurs_at(after, open, j));
    assert forall|i: int| 0 <= i < j implies !text::occurs_at(after, open, i) by {
        if i < key.len() {
            assert(after[i] == key[i]);
        } else {
            assert(after[i] == gap[i - key.len()]);
        }
    }
    text::lemma_least(after, open, j);
    assert(stands(s, start, object)) by {
        assert forall|i: int| 0 <= i < object.len() implies s[start + i] == #[trigger] object[i] by {}
    }
    lemma_stands(s, start, open + w, close);
    lemma_stands(s, start, open, w);
    assert(s[start] == open[0]);
    let n = w.len() as int;
    assert(s[start + 1 + n] == close[0]);
    let scan = Scan { depth: 1, in_string: false, escape: false };
    assert(Scan::start().step('{') == scan);
    assert(json_scan::object_end(s, start, Scan::start()) == json_scan::object_end(
        s,
        start + 1,
        scan,
    ));
    lemma_inside(s, start + 1, b, 1);
    assert(scan.closes('}'));
    assert(json_scan::object_end(s, start + 1 + n, scan) == Some(start + 2 + n));
    assert(s.subrange(start, start + 2 + n) =~= object);
}

/// No object is found where the key is absent, nor where no brace closes one.
pub proof fn law_no_object_without_a_key_and_a_brace(s: Seq<char>, key: Seq<char>)
    ensures
        !text::contains(s, key) ==> json_scan::object_text(s, key) is None,
        (forall|i: int| 0 <= i < s.len() ==> #[trigger] s[i] != '}') ==> json_scan::object_text(
            s,
            key,
        ) is None,
{
    text::lemma_absent(s, key);
    if json_scan::object_after(s, key) is Some {
        json_scan::law_found_objects_are_in_braces(s, key);
        let (start, end) = json_scan::object_after(s, key)->0;
        assert(s[end - 1] == s.subrange(start, end).last());
    }
}

proof fn lemma_quote_end(s: Seq<char>, i: int, t: Seq<char>)
    requires
        stands(s, i, escaped(t) + seq!['"']),
    ensures
        json_scan::quote_from(s, i, false) == Some(i + escaped(t).len()),
    decreases t.len(),
{
    let q = seq!['"'];
    lemma_stands(s, i, escaped(t), q);
    if t.len() == 0 {
        assert(s[i] == q[0]);
    } else {
        let rest = escaped(t.drop_first());
        if t[0] == '"' || t[0] == '\\' {
            let two = seq!['\\', t[0]];
            assert(escaped(t) + q =~= two + (rest + q));
            lemma_stands(s, i, two, rest + q);
            assert(s[i] == two[0] && s[i + 1] == two[1]);
            lemma_quote_end(s, i + 2, t.drop_first());
            assert(json_scan::quote_from(s, i, false) == json_scan::quote_from(s, i + 1, true));
            assert(json_scan::quote_from(s, i + 1, true) == json_scan::quote_from(s, i + 2, false));
        } else {
            let one = seq![t[0]];
            assert(escaped(t) + q =~= one + (rest + q));
            lemma_stands(s, i, one, rest + q);
            assert(s[i] == one[0]);
            lemma_quote_end(s, i + 1, t.drop_first());
        }
    }
}

/// The string under the first place of a key is found as it is written, up to the quote that ends
/// it: quotes and backslashes in it, which have a backslash before them, do not end it. Its value
/// is that of the written string.
pub proof fn law_strings_are_found_as_written(
    a: Seq<char>,
    key: Seq<char>,
    before: Seq<char>,
    after: Seq<char>,
    t: Seq<char>,
    rest: Seq<char>,
)
    requires
        !text::contains(a + (seq!['"'] + key), seq!['"'] + key + seq!['"']),
        forall|i: int| 0 <= i < before.len() ==> #[trigger] before[i] != ':',
        text::is_blank(after),
    ensures
        ({
            let name = seq!['"'] + key + seq!['"'];
            let value = seq!['"'] + escaped(t) + seq!['"'];
            let s = a + name + before + seq![':'] + after + value + rest;
            &&& json_scan::raw_field(s, key) == Some(escaped(t))
            &&& json_scan::string_field(s, key) == match json::parsed(value) {
                Some(Json::Text(v)) => Some(v),
                _ => None,
            }
        }),
{
    let q = seq!['"'];
    let name = q + key + q;
    let value = q + escaped(t) + q;
    let colon = seq![':'];
    let s = a + name + before + colon + after + value + rest;
    reveal_strlit("\"");
    reveal_strlit(":");
    assert("\""@ =~= q);
    assert(":"@ =~= colon);
    assert(json_scan::quoted(key) == name);
    let k = a.len() as int;
    assert(s.subrange(k, k + name.len()) =~= name);
    assert(s.take(k + name.len() - 1) =~= a + (q + key));
    lemma_first(s, name, k);
    let tail = s.skip(k + name.len() as int);
    assert(tail =~= before + colon + after + value + rest);
    text::lemma_char_positions(tail, ':');
    let c = before.len() as int;
    assert(tail[c] == ':');
    assert forall|i: int| 0 <= i < c implies !text::occurs_at(tail, colon, i) by {
        assert(tail[i] == before[i]);
    }
    assert(text::occurs_at(tail, colon, c));
    text::lemma_least(tail, colon, c);
    let there = value + rest;
    assert(tail.skip(c + 1) =~= after + there);
    assert(there[0] == '"');
    text::lemma_trim_start_all(after, there);
    assert(text::trim_start(there) == there);
    let content = there.drop_first();
    let body = escaped(t) + q;
    assert(content =~= body + rest);
    assert(stands(content, 0, body)) by {
        assert forall|i: int| 0 <= i < body.len() implies content[0 + i] == #[trigger] body[i] by {}
    }
    lemma_quote_end(content, 0, t);
    assert(content.take(escaped(t).len() as int) =~= escaped(t));
    assert(json_scan::quoted(escaped(t)) == value);
}

/// A text without a key has no string under it.
pub proof fn law_no_string_without_a_key(s: Seq<char>, key: Seq<char>)
    requires
        !text::contains(s, seq!['"'] + key + seq!['"']),
    ensures
        json_scan::string_field(s, key) is None,
{
    reveal_strlit("\"");
    assert("\""@ =~= seq!['"']);
    text::lemma_absent(s, json_scan::quoted(key));
}

} // verus!
