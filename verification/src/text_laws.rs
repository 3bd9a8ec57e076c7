//! Laws of texts, bytes and JSON values: what the words mean that all other laws use.

use crate::assoc;
use crate::bytes;
use crate::headers;
use crate::json::Json;
use crate::text;
use vstd::prelude::*;

verus! {

/// Letters change their case, one by one, and nothing else changes.
pub proof fn law_letters_change_their_case(s: Seq<char>, i: int)
    requires
        0 <= i < s.len(),
    ensures
        text::ascii_lowercase(s).len() == s.len(),
        text::ascii_lowercase(s)[i] as int == if 'A' <= s[i] <= 'Z' {
            s[i] as int + 32
        } else {
            s[i] as int
        },
        text::ascii_uppercase(s).len() == s.len(),
        text::ascii_uppercase(s)[i] as int == if 'a' <= s[i] <= 'z' {
            s[i] as int - 32
        } else {
            s[i] as int
        },
        vstd::utf8::is_ascii_chars(s) ==> text::lowercase(s) == text::ascii_lowercase(s),
{
}

/// Texts that differ in nothing but the case of letters are alike, and only those.
pub proof fn law_case_is_ignored(a: Seq<char>, b: Seq<char>)
    ensures
        text::eq_ignore_ascii_case(a, b) == (a.len() == b.len() && forall|i: int|
            0 <= i < a.len() ==> (#[trigger] a[i] == b[i] || ('A' <= a[i] <= 'Z' && b[i] as int
                == a[i] as int + 32) || ('a' <= a[i] <= 'z' && b[i] as int == a[i] as int - 32))),
{
    let x = text::ascii_lowercase(a);
    let y = text::ascii_lowercase(b);
    if text::eq_ignore_ascii_case(a, b) {
        assert(x.len() == y.len());
        assert forall|i: int| 0 <= i < a.len() implies (#[trigger] a[i] == b[i] || ('A' <= a[i]
            <= 'Z' && b[i] as int == a[i] as int + 32) || ('a' <= a[i] <= 'z' && b[i] as int == a[i]
            as int - 32)) by {
            assert(x[i] == y[i]);
        }
    }
    if a.len() == b.len() && forall|i: int|
        0 <= i < a.len() ==> (#[trigger] a[i] == b[i] || ('A' <= a[i] <= 'Z' && b[i] as int
            == a[i] as int + 32) || ('a' <= a[i] <= 'z' && b[i] as int == a[i] as int - 32)) {
        assert forall|i: int| 0 <= i < x.len() implies x[i] == y[i] by {
            assert(a[i] == b[i] || ('A' <= a[i] <= 'Z' && b[i] as int == a[i] as int + 32) || ('a'
                <= a[i] <= 'z' && b[i] as int == a[i] as int - 32));
        }
        assert(x =~= y);
    }
}

/// A text contains what stands in it with anything before and after, begins with what nothing
/// stands before, and ends with what nothing stands after.
pub proof fn law_parts_of_texts(s: Seq<char>, p: Seq<char>)
    ensures
        text::contains(s, p) <==> exists|a: Seq<char>, b: Seq<char>| #[trigger] (a + p + b) == s,
        text::starts_with(s, p) <==> exists|b: Seq<char>| #[trigger] (p + b) == s,
        text::ends_with(s, p) <==> exists|a: Seq<char>| #[trigger] (a + p) == s,
{
    if text::contains(s, p) {
        let i = choose|i: int| text::occurs_at(s, p, i);
        assert(s.take(i) + p + s.skip(i + p.len()) =~= s);
    }
    if exists|a: Seq<char>, b: Seq<char>| #[trigger] (a + p + b) == s {
        let (a, b) = choose|a: Seq<char>, b: Seq<char>| #[trigger] (a + p + b) == s;
        text::lemma_contains_around(a, p, b);
    }
    if text::starts_with(s, p) {
        assert(p + s.skip(p.len() as int) =~= s);
    }
    if exists|b: Seq<char>| #[trigger] (p + b) == s {
        let b = choose|b: Seq<char>| #[trigger] (p + b) == s;
        assert(s.subrange(0, p.len() as int) =~= p);
    }
    if text::ends_with(s, p) {
        assert(s.take(s.len() - p.len()) + p =~= s);
    }
    if exists|a: Seq<char>| #[trigger] (a + p) == s {
        let a = choose|a: Seq<char>| #[trigger] (a + p) == s;
        assert(s.subrange(s.len() - p.len(), s.len() as int) =~= p);
    }
}

/// What is found is the first place: what is sought stands there, and not before.
pub proof fn law_the_first_place_is_found(s: Seq<char>, p: Seq<char>)
    ensures
        match text::find(s, p) {
            Some(k) => 0 <= k && k + p.len() <= s.len() && s == s.take(k) + p + s.skip(
                k + p.len(),
            ) && forall|j: int|
                0 <= j < k && j + p.len() <= s.len() ==> #[trigger] s.subrange(j, j + p.len()) != p,
            None => !text::contains(s, p),
        },
{
    text::lemma_find(s, p);
    match text::find(s, p) {
        Some(k) => {
            assert(s =~= s.take(k) + p + s.skip(k + p.len()));
            assert forall|j: int| 0 <= j < k && j + p.len() <= s.len() implies #[trigger] s.subrange(
                j,
                j + p.len(),
            ) != p by {
                assert(!text::occurs_at(s, p, j));
            }
        },
        None => {},
    }
}

/// White space is the blank, the tab and the line ends, and the like of them beyond ASCII. What can
/// be seen is not.
pub proof fn law_white_space_cannot_be_seen(c: char)
    ensures
        text::is_whitespace(c) == (c == ' ' || '\t' <= c <= '\r' || c == '\u{85}' || c == '\u{a0}'
            || c == '\u{1680}' || '\u{2000}' <= c <= '\u{200a}' || c == '\u{2028}' || c == '\u{2029}'
            || c == '\u{202f}' || c == '\u{205f}' || c == '\u{3000}'),
        '!' <= c <= '~' ==> !text::is_whitespace(c),
{
}

/// A text with anything but digits after a sign is no number, and neither is an empty one. A sign
/// in front does not matter.
pub proof fn law_other_texts_are_no_numbers(s: Seq<char>, i: int, max: nat)
    ensures
        s.len() == 0 ==> text::parse_unsigned(s, max) is None,
        0 <= i < s.len() && !('0' <= s[i] <= '9') && (i > 0 || s[i] != '+')
            ==> text::parse_unsigned(s, max) is None,
        s.len() > 0 && '0' <= s[0] <= '9' ==> text::parse_unsigned(seq!['+'] + s, max)
            == text::parse_unsigned(s, max),
{
    let d = text::without_plus(s);
    if 0 <= i < s.len() && !('0' <= s[i] <= '9') && (i > 0 || s[i] != '+') {
        let k = if s[0] == '+' {
            i - 1
        } else {
            i
        };
        assert(d[k] == s[i]);
        assert(!text::is_digit(d[k]));
    }
    assert((seq!['+'] + s).drop_first() =~= s);
}

/// The first byte of a number counts most: a byte more makes it 256 times as much, and that byte.
pub proof fn law_first_bytes_count_most(s: Seq<u8>, b: u8)
    ensures
        bytes::be_value(Seq::empty()) == 0,
        bytes::be_value(s.push(b)) == 256 * bytes::be_value(s) + b,
{
    assert(s.push(b).drop_last() =~= s);
}

/// A byte in hexadecimal is two digits, of which the first counts sixteen times; digits above
/// nine are small letters. More bytes take more digits, in the same order.
pub proof fn law_bytes_are_two_digits(b: u8, more: Seq<u8>, d: nat)
    requires
        d < 16,
    ensures
        bytes::hex_text(seq![((16 * d) % 256) as u8])[0] as int == if d < 10 {
            '0' as int + d
        } else {
            'a' as int + d - 10
        },
        bytes::hex_text(seq![d as u8])[1] == bytes::hex_text(seq![((16 * d) % 256) as u8])[0],
        bytes::hex_text(seq![b]).len() == 2,
        bytes::hex_text(seq![b] + more) == bytes::hex_text(seq![b]) + bytes::hex_text(more),
{
    assert((16 * d) % 256 == 16 * d);
    assert((16 * d) / 16 == d);
    let one = seq![b];
    let all = one + more;
    let x = bytes::hex_text(all);
    let y = bytes::hex_text(one) + bytes::hex_text(more);
    assert(x.len() == y.len());
    assert forall|i: int| 0 <= i < x.len() implies x[i] == y[i] by {
        if i < 2 {
            assert(i / 2 == 0);
            assert(all[0] == one[0]);
        } else {
            assert((i - 2) / 2 == i / 2 - 1);
            assert((i - 2) % 2 == i % 2);
            assert(all[i / 2] == more[i / 2 - 1]);
        }
    }
    assert(x =~= y);
}

/// Capital letters stand for the same digits as small ones.
pub proof fn law_digits_have_either_case(c: char)
    requires
        'a' <= c <= 'f',
    ensures
        text::hex_digit_value(c) == c as int - 'a' as int + 10,
        text::hex_digit_value((c as u8 - 32) as char) == text::hex_digit_value(c),
        text::is_hex_digit(c) && text::is_hex_digit((c as u8 - 32) as char),
        !text::is_hex_digit('g') && !text::is_hex_digit('G') && !text::is_hex_digit(' '),
{
}

/// A captured text stands for the bytes of its characters, in order: one byte for each up to 255,
/// and its UTF-8 for any other.
pub proof fn law_characters_stand_for_bytes(s: Seq<char>, c: char)
    ensures
        bytes::captured_bytes(Seq::empty()).len() == 0,
        c as int <= 255 ==> bytes::captured_bytes(s.push(c)) == bytes::captured_bytes(s).push(
            c as u8,
        ),
        c as int > 255 ==> bytes::captured_bytes(s.push(c)) == bytes::captured_bytes(s)
            + vstd::utf8::encode_utf8(seq![c]),
{
    assert(s.push(c).drop_last() =~= s);
    assert(bytes::captured_bytes(s) + seq![c as u8] =~= bytes::captured_bytes(s).push(c as u8));
}

/// Of the entries of a name the first one counts, and a name without an entry has no value.
pub proof fn law_the_first_entry_counts<V>(s: Seq<(Seq<char>, V)>, key: Seq<char>, i: int)
    ensures
        0 <= i < s.len() && s[i].0 == key && (forall|j: int| 0 <= j < i ==> (#[trigger] s[j]).0
            != key) ==> assoc::lookup(s, key) == Some(s[i].1),
        (forall|j: int| 0 <= j < s.len() ==> (#[trigger] s[j]).0 != key) ==> assoc::lookup(
            s,
            key,
        ) is None,
{
    let k = assoc::keys(s);
    assoc::lemma_index_of(k, key);
    if 0 <= i < s.len() && s[i].0 == key && (forall|j: int| 0 <= j < i ==> (#[trigger] s[j]).0
        != key) {
        assert(k[i] == key);
        assert forall|j: int| 0 <= j < i implies #[trigger] k[j] != key by {
            assert(s[j].0 != key);
        }
        assoc::lemma_index_is(k, key, i);
    }
    if forall|j: int| 0 <= j < s.len() ==> (#[trigger] s[j]).0 != key {
        assert forall|j: int| 0 <= j < k.len() implies #[trigger] k[j] != key by {
            assert(s[j].0 != key);
        }
    }
}

/// A value put under a name stands in the place of the one before, or where there was none at the
/// end; no other entry moves or changes.
pub proof fn law_entries_stay_in_place<V>(s: Seq<(Seq<char>, V)>, key: Seq<char>, value: V)
    ensures
        ({
            let t = assoc::set(s, key, value);
            &&& assoc::lookup(t, key) == Some(value)
            &&& assoc::lookup(s, key) is None ==> t == s.push((key, value))
            &&& assoc::lookup(s, key) is Some ==> t.len() == s.len()
            &&& forall|i: int| 0 <= i < s.len() && s[i].0 != key ==> #[trigger] t[i] == s[i]
        }),
{
    assoc::lemma_set(s, key, value);
    let k = assoc::keys(s);
    assoc::lemma_index_of(k, key);
}

/// The fields of an object are its entries, and only objects have any. Values of one kind are not
/// taken for those of another.
pub proof fn law_values_are_of_one_kind(
    j: Json,
    key: Seq<char>,
    fields: Seq<(Seq<char>, Json)>,
)
    ensures
        Json::Object(fields).field(key) == assoc::lookup(fields, key),
        !(j is Object) ==> j.field(key) is None,
        j.text_field(key) == (match j.field(key) {
            Some(Json::Text(s)) => Some(s),
            _ => None,
        }),
        j.unsigned_field(key) == (match j.field(key) {
            Some(Json::Unsigned(n)) => Some(n),
            _ => None,
        }),
        j.boolean_field(key) == (match j.field(key) {
            Some(Json::Bool(b)) => Some(b),
            _ => None,
        }),
        j.list_field(key) == (match j.field(key) {
            Some(Json::List(l)) => Some(l),
            _ => None,
        }),
        j.fields_field(key) == (match j.field(key) {
            Some(Json::Object(f)) => Some(f),
            _ => None,
        }),
{
}

/// Sizes that do not fit are as large as can be; all others are what they are.
pub proof fn law_sizes_are_bounded(n: nat)
    ensures
        n <= usize::MAX ==> headers::bounded(n) == n,
        n > usize::MAX ==> headers::bounded(n) == usize::MAX,
{
}

/// Fields put in after others come after them, one by one, as values put in under their names.
pub proof fn law_fields_are_put_in_one_by_one(
    a: Seq<(Seq<char>, Seq<char>)>,
    b: Seq<(Seq<char>, Seq<char>)>,
    name: Seq<char>,
    value: Seq<char>,
)
    ensures
        headers::extended(a, Seq::empty()) == a,
        headers::extended(a, b.push((name, value))) == assoc::set(
            headers::extended(a, b),
            name,
            value,
        ),
{
    assert(b.push((name, value)).drop_last() =~= b);
}

} // verus!
