//! Text as a sequence of characters: searching, splitting, trimming and numbers.
//!
//! The parsers of this library work on `&[char]`: a text is taken apart once, by
//! [`chars`], and pieces of it are slices. Every function is stated over the
//! sequence of characters that the text holds.

use vstd::prelude::*;
use vstd::slice::slice_subrange;

verus! {

/// `p` stands in `s` at position `i`.
pub open spec fn occurs_at(s: Seq<char>, p: Seq<char>, i: int) -> bool {
    0 <= i && i + p.len() <= s.len() && s.subrange(i, i + p.len()) =~= p
}

/// `p` stands somewhere in `s`.
pub open spec fn contains(s: Seq<char>, p: Seq<char>) -> bool {
    exists|i: int| occurs_at(s, p, i)
}

/// The first position not before `i` at which `p` stands in `s`.
pub open spec fn find_from(s: Seq<char>, p: Seq<char>, i: int) -> Option<int>
    decreases s.len() - i,
{
    if i < 0 || i + p.len() > s.len() {
        None
    } else if occurs_at(s, p, i) {
        Some(i)
    } else {
        find_from(s, p, i + 1)
    }
}

/// The first position at which `p` stands in `s`.
pub open spec fn find(s: Seq<char>, p: Seq<char>) -> Option<int> {
    find_from(s, p, 0)
}

pub open spec fn starts_with(s: Seq<char>, p: Seq<char>) -> bool {
    occurs_at(s, p, 0)
}

pub open spec fn ends_with(s: Seq<char>, p: Seq<char>) -> bool {
    occurs_at(s, p, s.len() - p.len())
}

/// `s` cut at each occurrence of `sep`, from the left, occurrences not overlapping.
/// The pieces do not hold the separators; there is always at least one piece.
pub open spec fn split(s: Seq<char>, sep: Seq<char>) -> Seq<Seq<char>>
    decreases s.len(),
    when sep.len() > 0
    via split_decreases
{
    match find(s, sep) {
        None => seq![s],
        Some(i) => seq![s.take(i)] + split(s.skip(i + sep.len()), sep),
    }
}

#[via_fn]
proof fn split_decreases(s: Seq<char>, sep: Seq<char>) {
    lemma_find(s, sep);
}

/// The pieces with `sep` between each two neighbours.
pub open spec fn join(pieces: Seq<Seq<char>>, sep: Seq<char>) -> Seq<char>
    decreases pieces.len(),
{
    if pieces.len() == 0 {
        Seq::empty()
    } else if pieces.len() == 1 {
        pieces[0]
    } else {
        join(pieces.drop_last(), sep) + sep + pieces.last()
    }
}

/// `s` with each occurrence of `from` (as [`split`] finds them) replaced by `to`.
pub open spec fn replace(s: Seq<char>, from: Seq<char>, to: Seq<char>) -> Seq<char> {
    join(split(s, from), to)
}

/// The characters with the Unicode property `White_Space`.
pub open spec fn is_whitespace(c: char) -> bool {
    let u = c as u32;
    ||| 0x9 <= u <= 0xd
    ||| u == 0x20
    ||| u == 0x85
    ||| u == 0xa0
    ||| u == 0x1680
    ||| 0x2000 <= u <= 0x200a
    ||| u == 0x2028
    ||| u == 0x2029
    ||| u == 0x202f
    ||| u == 0x205f
    ||| u == 0x3000
}

pub open spec fn trim_start(s: Seq<char>) -> Seq<char>
    decreases s.len(),
{
    if s.len() > 0 && is_whitespace(s[0]) {
        trim_start(s.drop_first())
    } else {
        s
    }
}

pub open spec fn trim_end(s: Seq<char>) -> Seq<char>
    decreases s.len(),
{
    if s.len() > 0 && is_whitespace(s.last()) {
        trim_end(s.drop_last())
    } else {
        s
    }
}

/// `s` without the white space at its two ends.
pub open spec fn trim(s: Seq<char>) -> Seq<char> {
    trim_end(trim_start(s))
}

/// `s` holds white space only.
pub open spec fn is_blank(s: Seq<char>) -> bool {
    forall|i: int| 0 <= i < s.len() ==> is_whitespace(#[trigger] s[i])
}

/// `s` without its first `n` characters; empty where it has no more than `n`.
pub open spec fn without_first(s: Seq<char>, n: int) -> Seq<char> {
    if n <= s.len() {
        s.skip(n)
    } else {
        Seq::empty()
    }
}

pub open spec fn ascii_lower(c: char) -> char {
    if 'A' <= c && c <= 'Z' {
        ((c as u8 + 32) as u8) as char
    } else {
        c
    }
}

pub open spec fn ascii_upper(c: char) -> char {
    if 'a' <= c && c <= 'z' {
        ((c as u8 - 32) as u8) as char
    } else {
        c
    }
}

/// `s` with the letters `A` to `Z` in lower case.
pub open spec fn ascii_lowercase(s: Seq<char>) -> Seq<char> {
    Seq::new(s.len(), |i: int| ascii_lower(s[i]))
}

/// `s` with the letters `a` to `z` in upper case.
pub open spec fn ascii_uppercase(s: Seq<char>) -> Seq<char> {
    Seq::new(s.len(), |i: int| ascii_upper(s[i]))
}

/// What `str::to_lowercase` makes of a text that is not all ASCII.
pub uninterp spec fn unicode_lowercase(s: Seq<char>) -> Seq<char>;

/// `s` in lower case, by the rules of Unicode.
pub open spec fn lowercase(s: Seq<char>) -> Seq<char> {
    if vstd::utf8::is_ascii_chars(s) {
        ascii_lowercase(s)
    } else {
        unicode_lowercase(s)
    }
}

/// Equal up to the case of the letters `A` to `Z`.
pub open spec fn eq_ignore_ascii_case(a: Seq<char>, b: Seq<char>) -> bool {
    ascii_lowercase(a) =~= ascii_lowercase(b)
}

pub open spec fn is_digit(c: char) -> bool {
    '0' <= c && c <= '9'
}

/// The number that a sequence of decimal digits denotes.
pub open spec fn decimal_value(s: Seq<char>) -> nat
    decreases s.len(),
{
    if s.len() == 0 {
        0
    } else {
        decimal_value(s.drop_last()) * 10 + (s.last() as nat - '0' as nat) as nat
    }
}

pub open spec fn all_digits(s: Seq<char>) -> bool {
    forall|i: int| 0 <= i < s.len() ==> is_digit(#[trigger] s[i])
}

/// `s` without a leading `+`.
pub open spec fn without_plus(s: Seq<char>) -> Seq<char> {
    if s.len() > 0 && s[0] == '+' {
        s.drop_first()
    } else {
        s
    }
}

/// What a text of digits, with or without a leading `+`, denotes, where that is at most `max`.
pub open spec fn parse_unsigned(s: Seq<char>, max: nat) -> Option<nat> {
    let digits = without_plus(s);
    if digits.len() > 0 && all_digits(digits) && decimal_value(digits) <= max {
        Some(decimal_value(digits))
    } else {
        None
    }
}

/// The decimal digits of `n`, the first one not `0` unless `n` is.
pub open spec fn decimal(n: nat) -> Seq<char>
    decreases n,
{
    if n < 10 {
        seq![((n + 48) as u8) as char]
    } else {
        decimal(n / 10).push(((n % 10 + 48) as u8) as char)
    }
}

pub open spec fn is_hex_digit(c: char) -> bool {
    is_digit(c) || ('a' <= c && c <= 'f') || ('A' <= c && c <= 'F')
}

pub open spec fn hex_digit_value(c: char) -> nat {
    if is_digit(c) {
        (c as nat - '0' as nat) as nat
    } else if 'a' <= c && c <= 'f' {
        (c as nat - 'a' as nat + 10) as nat
    } else {
        (c as nat - 'A' as nat + 10) as nat
    }
}

/// The number that a sequence of hexadecimal digits denotes.
pub open spec fn hex_value(s: Seq<char>) -> nat
    decreases s.len(),
{
    if s.len() == 0 {
        0
    } else {
        hex_value(s.drop_last()) * 16 + hex_digit_value(s.last())
    }
}

pub proof fn lemma_find_from(s: Seq<char>, p: Seq<char>, i: int)
    requires
        0 <= i,
    ensures
        match find_from(s, p, i) {
            Some(k) => i <= k && occurs_at(s, p, k) && forall|j: int|
                i <= j < k ==> !occurs_at(s, p, j),
            None => forall|j: int| i <= j ==> !occurs_at(s, p, j),
        },
    decreases s.len() - i,
{
    if i + p.len() <= s.len() && !occurs_at(s, p, i) {
        lemma_find_from(s, p, i + 1);
    }
}

/// [`find`] gives the least position at which `p` stands, where there is one.
pub proof fn lemma_find(s: Seq<char>, p: Seq<char>)
    ensures
        match find(s, p) {
            Some(k) => 0 <= k && occurs_at(s, p, k) && forall|j: int|
                0 <= j < k ==> !occurs_at(s, p, j),
            None => !contains(s, p),
        },
{
    lemma_find_from(s, p, 0);
}

/// A least position is what [`find`] gives.
pub(crate) proof fn lemma_least(s: Seq<char>, p: Seq<char>, k: int)
    requires
        occurs_at(s, p, k),
        forall|j: int| 0 <= j < k ==> !occurs_at(s, p, j),
    ensures
        find(s, p) == Some(k),
{
    lemma_find(s, p);
}

/// Nothing is found exactly where `p` does not stand in `s`.
pub(crate) proof fn lemma_absent(s: Seq<char>, p: Seq<char>)
    ensures
        find(s, p) is None <==> !contains(s, p),
{
    lemma_find(s, p);
}

/// What stands in a text stands in it with anything before and after.
pub(crate) proof fn lemma_contains_around(a: Seq<char>, p: Seq<char>, b: Seq<char>)
    ensures
        contains(a + p + b, p),
        occurs_at(a + p + b, p, a.len() as int),
{
    let s = a + p + b;
    assert(s.subrange(a.len() as int, a.len() + p.len() as int) =~= p);
    assert(occurs_at(s, p, a.len() as int));
}

/// What stands in a part of a text stands in the text.
pub(crate) proof fn lemma_part_contains(s: Seq<char>, from: int, to: int, p: Seq<char>)
    requires
        0 <= from <= to <= s.len(),
        contains(s.subrange(from, to), p),
    ensures
        contains(s, p),
{
    let part = s.subrange(from, to);
    let k = choose|k: int| occurs_at(part, p, k);
    assert(part.subrange(k, k + p.len()) =~= s.subrange(from + k, from + k + p.len()));
    assert(occurs_at(s, p, from + k));
}

/// A text of one character stands where that character stands.
pub(crate) proof fn lemma_char_positions(s: Seq<char>, c: char)
    ensures
        forall|j: int| #[trigger]
            occurs_at(s, seq![c], j) <==> (0 <= j < s.len() && s[j] == c),
{
    assert forall|j: int| #[trigger] occurs_at(s, seq![c], j) <==> (0 <= j < s.len() && s[j]
        == c) by {
        if 0 <= j < s.len() {
            assert(s.subrange(j, j + 1)[0] == s[j]);
            if s[j] == c {
                assert(s.subrange(j, j + 1) =~= seq![c]);
            }
        }
    }
}

/// `str::to_lowercase`. On a text of ASCII characters it changes the letters `A` to `Z` only; what
/// it makes of any other text depends on that text alone.
#[verifier::external_body]
pub(crate) fn to_lowercase(s: &str) -> (r: String)
    ensures
        r@ == (if vstd::utf8::is_ascii_chars(s@) {
            ascii_lowercase(s@)
        } else {
            unicode_lowercase(s@)
        }),
{
    s.to_lowercase()
}

/// The characters of a text.
pub fn chars(s: &str) -> (r: Vec<char>)
    ensures
        r@ == s@,
{
    let mut out: Vec<char> = Vec::new();
    for c in it: s.chars()
        invariant
            it.seq() == s@,
            out@ == s@.take(it.index()),
    {
        out.push(c);
    }
    out
}

/// `String::push` appends the one character.
pub assume_specification[ String::push ](s: &mut String, ch: char)
    ensures
        final(s)@ == old(s)@.push(ch),
;

/// The text that a sequence of characters makes.
pub fn string(s: &[char]) -> (r: String)
    ensures
        r@ == s@,
{
    let mut out: String = String::new();
    let mut i: usize = 0;
    while i < s.len()
        invariant
            i <= s@.len(),
            out@ == s@.take(i as int),
        decreases s@.len() - i,
    {
        out.push(s[i]);
        proof {
            assert(s@.take(i + 1) =~= s@.take(i as int).push(s@[i as int]));
        }
        i += 1;
    }
    assert(s@.take(i as int) =~= s@);
    out
}

/// A copy of a text.
pub fn owned(s: &str) -> (r: String)
    ensures
        r@ == s@,
{
    let mut out: String = String::new();
    push_str(&mut out, s);
    assert(out@ =~= s@);
    out
}

/// The characters of a text that may be absent.
pub open spec fn optional_view(s: Option<String>) -> Option<Seq<char>> {
    match s {
        Some(t) => Some(t@),
        None => None,
    }
}

/// A copy of the text that may be there.
pub fn copy(s: &Option<String>) -> (r: Option<String>)
    ensures
        optional_view(r) == optional_view(*s),
{
    match s {
        Some(t) => Some(t.clone()),
        None => None,
    }
}

/// Appends the characters of `tail` to `s`.
pub fn push_str(s: &mut String, tail: &str)
    ensures
        final(s)@ == old(s)@ + tail@,
{
    s.append(tail);
}

/// Two texts hold the same characters.
pub fn same(a: &str, b: &str) -> (r: bool)
    ensures
        r == (a@ == b@),
{
    let x: &[u8] = a.as_bytes();
    let y: &[u8] = b.as_bytes();
    proof {
        vstd::utf8::encode_utf8_decode_utf8(a@);
        vstd::utf8::encode_utf8_decode_utf8(b@);
    }
    if x.len() != y.len() {
        return false;
    }
    let mut i: usize = 0;
    while i < x.len()
        invariant
            i <= x@.len(),
            x@.len() == y@.len(),
            x@ == vstd::utf8::encode_utf8(a@),
            y@ == vstd::utf8::encode_utf8(b@),
            forall|k: int| 0 <= k < i ==> x@[k] == y@[k],
        decreases x@.len() - i,
    {
        if x[i] != y[i] {
            return false;
        }
        i += 1;
    }
    assert(x@ =~= y@);
    true
}

/// The number of bytes of the UTF-8 encoding of a text.
pub fn byte_len(s: &str) -> (r: usize)
    ensures
        r == vstd::utf8::encode_utf8(s@).len(),
{
    s.as_bytes().len()
}

fn stands_at(s: &[char], p: &[char], i: usize) -> (r: bool)
    requires
        i + p@.len() <= s@.len(),
    ensures
        r == occurs_at(s@, p@, i as int),
{
    let total: usize = s.len();
    let mut j: usize = 0;
    while j < p.len()
        invariant
            j <= p@.len(),
            i + p@.len() <= s@.len(),
            s@.len() == total,
            forall|k: int| 0 <= k < j ==> s@[i + k] == p@[k],
        decreases p@.len() - j,
    {
        if s[i + j] != p[j] {
            assert(s@.subrange(i as int, i + p@.len())[j as int] == s@[i + j]);
            return false;
        }
        j += 1;
    }
    assert(s@.subrange(i as int, i + p@.len()) =~= p@);
    true
}

fn position_from(s: &[char], p: &[char], start: usize) -> (r: Option<usize>)
    ensures
        match r {
            Some(k) => find_from(s@, p@, start as int) == Some(k as int),
            None => find_from(s@, p@, start as int) is None,
        },
{
    let mut i: usize = start;
    while p.len() <= s.len() && i <= s.len() - p.len()
        invariant
            start <= i,
            find_from(s@, p@, start as int) == find_from(s@, p@, i as int),
        decreases s@.len() + 1 - i,
    {
        if stands_at(s, p, i) {
            return Some(i);
        }
        if i == s.len() {
            return None;
        }
        i += 1;
    }
    None
}

/// The first position at which `p` stands in `s`.
pub fn position(s: &[char], p: &str) -> (r: Option<usize>)
    ensures
        match r {
            Some(k) => find(s@, p@) == Some(k as int) && k + p@.len() <= s@.len(),
            None => find(s@, p@) is None,
        },
{
    let pattern: Vec<char> = chars(p);
    proof {
        lemma_find(s@, p@);
    }
    position_from(s, pattern.as_slice(), 0)
}

/// `p` stands in `s`.
pub fn has(s: &[char], p: &str) -> (r: bool)
    ensures
        r == contains(s@, p@),
{
    proof {
        lemma_find(s@, p@);
    }
    position(s, p).is_some()
}

pub fn begins(s: &[char], p: &str) -> (r: bool)
    ensures
        r == starts_with(s@, p@),
{
    let pattern: Vec<char> = chars(p);
    pattern.len() <= s.len() && stands_at(s, pattern.as_slice(), 0)
}

pub fn ends(s: &[char], p: &str) -> (r: bool)
    ensures
        r == ends_with(s@, p@),
{
    let pattern: Vec<char> = chars(p);
    pattern.len() <= s.len() && stands_at(s, pattern.as_slice(), s.len() - pattern.len())
}

/// The characters that each slice holds.
pub open spec fn pieces_view(v: Seq<&[char]>) -> Seq<Seq<char>> {
    Seq::new(v.len(), |i: int| v[i]@)
}

/// `s` cut at each occurrence of `sep`.
pub fn pieces<'a>(s: &'a [char], sep: &str) -> (r: Vec<&'a [char]>)
    requires
        sep@.len() > 0,
    ensures
        pieces_view(r@) == split(s@, sep@),
        r@.len() > 0,
{
    let pattern: Vec<char> = chars(sep);
    let mut out: Vec<&'a [char]> = Vec::new();
    let mut rest: &'a [char] = s;
    assert(pieces_view(out@) + split(rest@, sep@) =~= split(s@, sep@));
    loop
        invariant
            pattern@ == sep@,
            sep@.len() > 0,
            pieces_view(out@) + split(rest@, sep@) == split(s@, sep@),
        decreases rest@.len(),
    {
        proof {
            lemma_find(rest@, sep@);
        }
        match position_from(rest, pattern.as_slice(), 0) {
            None => {
                let ghost before = out@;
                out.push(rest);
                proof {
                    assert(pieces_view(out@) =~= pieces_view(before).push(rest@));
                    assert(split(rest@, sep@) =~= seq![rest@]);
                    assert(pieces_view(out@) =~= split(s@, sep@));
                }
                return out;
            },
            Some(i) => {
                let ghost before = out@;
                let ghost whole = rest@;
                let total: usize = rest.len();
                let head: &'a [char] = slice_subrange(rest, 0, i);
                out.push(head);
                rest = slice_subrange(rest, i + pattern.len(), total);
                proof {
                    assert(head@ =~= whole.take(i as int));
                    assert(rest@ =~= whole.skip(i + sep@.len()));
                    assert(split(whole, sep@) == seq![head@] + split(rest@, sep@));
                    assert(pieces_view(out@) =~= pieces_view(before).push(head@));
                    assert(pieces_view(out@) + split(rest@, sep@) =~= pieces_view(before) + split(
                        whole,
                        sep@,
                    ));
                }
            },
        }
    }
}

/// The pieces with `sep` between each two neighbours.
pub fn joined(v: &Vec<&[char]>, sep: &str) -> (r: String)
    ensures
        r@ == join(pieces_view(v@), sep@),
{
    let mut out: String = String::new();
    let mut i: usize = 0;
    while i < v.len()
        invariant
            i <= v@.len(),
            out@ == join(pieces_view(v@).take(i as int), sep@),
        decreases v@.len() - i,
    {
        if i > 0 {
            push_str(&mut out, sep);
        }
        let piece: String = string(v[i]);
        push_str(&mut out, piece.as_str());
        proof {
            let all = pieces_view(v@);
            assert(all.take(i + 1).drop_last() =~= all.take(i as int));
            assert(all.take(i + 1).last() == v@[i as int]@);
            assert(out@ =~= join(all.take(i + 1), sep@));
        }
        i += 1;
    }
    assert(pieces_view(v@).take(i as int) =~= pieces_view(v@));
    out
}

pub fn whitespace(c: char) -> (r: bool)
    ensures
        r == is_whitespace(c),
{
    let u: u32 = c as u32;
    (0x9 <= u && u <= 0xd) || u == 0x20 || u == 0x85 || u == 0xa0 || u == 0x1680 || (0x2000 <= u
        && u <= 0x200a) || u == 0x2028 || u == 0x2029 || u == 0x202f || u == 0x205f || u == 0x3000
}

/// `s` without the white space at its start.
pub fn trimmed_start(s: &[char]) -> (r: &[char])
    ensures
        r@ == trim_start(s@),
{
    let total: usize = s.len();
    let mut start: usize = 0;
    assert(s@.skip(0) =~= s@);
    while start < total && whitespace(s[start])
        invariant
            total == s@.len(),
            start <= total,
            trim_start(s@) == trim_start(s@.skip(start as int)),
        decreases total - start,
    {
        assert(s@.skip(start as int).drop_first() =~= s@.skip(start + 1));
        start += 1;
    }
    let r: &[char] = slice_subrange(s, start, total);
    assert(r@ =~= s@.skip(start as int));
    r
}

/// `s` without the white space at its two ends.
pub fn trimmed(s: &[char]) -> (r: &[char])
    ensures
        r@ == trim(s@),
{
    let mut start: usize = 0;
    assert(s@.skip(0) =~= s@);
    while start < s.len() && whitespace(s[start])
        invariant
            start <= s@.len(),
            trim_start(s@) == trim_start(s@.skip(start as int)),
        decreases s@.len() - start,
    {
        assert(s@.skip(start as int).drop_first() =~= s@.skip(start + 1));
        start += 1;
    }
    assert(trim_start(s@) == s@.skip(start as int));
    let mut end: usize = s.len();
    assert(s@.subrange(start as int, end as int) =~= s@.skip(start as int));
    while start < end && whitespace(s[end - 1])
        invariant
            start <= end <= s@.len(),
            trim(s@) == trim_end(s@.subrange(start as int, end as int)),
        decreases end,
    {
        assert(s@.subrange(start as int, end as int).drop_last() =~= s@.subrange(
            start as int,
            end - 1,
        ));
        end -= 1;
    }
    slice_subrange(s, start, end)
}

/// `s` holds white space only.
pub fn blank(s: &[char]) -> (r: bool)
    ensures
        r == is_blank(s@),
        r == (trim(s@).len() == 0),
{
    let t: &[char] = trimmed(s);
    proof {
        lemma_trim_blank(s@);
    }
    t.len() == 0
}

pub(crate) proof fn lemma_trim_start_blank(s: Seq<char>)
    ensures
        is_blank(s) ==> trim_start(s).len() == 0,
        !is_blank(s) ==> trim_start(s).len() > 0 && !is_whitespace(trim_start(s)[0]),
    decreases s.len(),
{
    if s.len() > 0 && is_whitespace(s[0]) {
        let t = s.drop_first();
        lemma_trim_start_blank(t);
        if is_blank(t) {
            assert forall|i: int| 0 <= i < s.len() implies is_whitespace(#[trigger] s[i]) by {
                if i > 0 {
                    assert(t[i - 1] == s[i]);
                }
            }
        } else {
            let k = choose|k: int| 0 <= k < t.len() && !is_whitespace(#[trigger] t[k]);
            assert(s[k + 1] == t[k]);
        }
    }
}

proof fn lemma_trim_end_kept(s: Seq<char>)
    requires
        s.len() > 0,
        !is_whitespace(s[0]),
    ensures
        trim_end(s).len() > 0,
    decreases s.len(),
{
    if is_whitespace(s.last()) {
        lemma_trim_end_kept(s.drop_last());
    }
}

/// A text is blank exactly if nothing is left of it once it is trimmed.
pub proof fn lemma_trim_blank(s: Seq<char>)
    ensures
        is_blank(s) <==> trim(s).len() == 0,
{
    lemma_trim_start_blank(s);
    if !is_blank(s) {
        lemma_trim_end_kept(trim_start(s));
    }
}

/// `s` without its first `n` characters.
pub fn after_first(s: &[char], n: usize) -> (r: &[char])
    ensures
        r@ == without_first(s@, n as int),
{
    if n <= s.len() {
        let r: &[char] = slice_subrange(s, n, s.len());
        assert(r@ =~= s@.skip(n as int));
        r
    } else {
        let r: &[char] = slice_subrange(s, 0, 0);
        assert(r@ =~= Seq::<char>::empty());
        r
    }
}

pub fn lower(s: &[char]) -> (r: Vec<char>)
    ensures
        r@ == ascii_lowercase(s@),
{
    let mut out: Vec<char> = Vec::new();
    let mut i: usize = 0;
    while i < s.len()
        invariant
            i <= s@.len(),
            out@ =~= ascii_lowercase(s@).take(i as int),
        decreases s@.len() - i,
    {
        let c: char = s[i];
        let d: char = if 'A' <= c && c <= 'Z' {
            ((c as u8) + 32) as char
        } else {
            c
        };
        out.push(d);
        i += 1;
    }
    out
}

pub fn upper(s: &[char]) -> (r: Vec<char>)
    ensures
        r@ == ascii_uppercase(s@),
{
    let mut out: Vec<char> = Vec::new();
    let mut i: usize = 0;
    while i < s.len()
        invariant
            i <= s@.len(),
            out@ =~= ascii_uppercase(s@).take(i as int),
        decreases s@.len() - i,
    {
        let c: char = s[i];
        let d: char = if 'a' <= c && c <= 'z' {
            ((c as u8) - 32) as char
        } else {
            c
        };
        out.push(d);
        i += 1;
    }
    out
}

/// Equal up to the case of the letters `A` to `Z`.
pub fn same_ignoring_case(a: &str, b: &str) -> (r: bool)
    ensures
        r == eq_ignore_ascii_case(a@, b@),
{
    let x: Vec<char> = lower(chars(a).as_slice());
    let y: Vec<char> = lower(chars(b).as_slice());
    if x.len() != y.len() {
        return false;
    }
    let mut i: usize = 0;
    while i < x.len()
        invariant
            i <= x@.len(),
            x@.len() == y@.len(),
            x@ == ascii_lowercase(a@),
            y@ == ascii_lowercase(b@),
            forall|k: int| 0 <= k < i ==> x@[k] == y@[k],
        decreases x@.len() - i,
    {
        if x[i] != y[i] {
            return false;
        }
        i += 1;
    }
    true
}

proof fn lemma_decimal_value_grows(s: Seq<char>, i: int)
    requires
        0 <= i <= s.len(),
    ensures
        decimal_value(s.take(i)) <= decimal_value(s),
    decreases s.len(),
{
    if i < s.len() {
        lemma_decimal_value_grows(s.drop_last(), i);
        assert(s.drop_last().take(i) =~= s.take(i));
    } else {
        assert(s.take(i) =~= s);
    }
}

/// The number that a text of digits denotes, where it is at most `max`.
pub fn number(s: &[char], max: u64) -> (r: Option<u64>)
    ensures
        match r {
            Some(v) => parse_unsigned(s@, max as nat) == Some(v as nat),
            None => parse_unsigned(s@, max as nat) is None,
        },
{
    let digits: &[char] = if s.len() > 0 && s[0] == '+' {
        slice_subrange(s, 1, s.len())
    } else {
        s
    };
    proof {
        if s@.len() > 0 && s@[0] == '+' {
            assert(digits@ =~= s@.drop_first());
        }
    }
    if digits.len() == 0 {
        return None;
    }
    let mut value: u64 = 0;
    let mut i: usize = 0;
    while i < digits.len()
        invariant
            i <= digits@.len(),
            value <= max,
            value == decimal_value(digits@.take(i as int)),
            forall|k: int| 0 <= k < i ==> is_digit(#[trigger] digits@[k]),
            digits@ == without_plus(s@),
            digits@.len() > 0,
        decreases digits@.len() - i,
    {
        let c: char = digits[i];
        if !('0' <= c && c <= '9') {
            assert(!all_digits(digits@)) by {
                assert(!is_digit(digits@[i as int]));
            }
            return None;
        }
        let d: u64 = (c as u32 - '0' as u32) as u64;
        proof {
            assert(digits@.take(i + 1).drop_last() =~= digits@.take(i as int));
            assert(decimal_value(digits@.take(i + 1)) == value * 10 + d);
            lemma_decimal_value_grows(digits@, i + 1);
        }
        let wide: u128 = (value as u128) * 10 + (d as u128);
        if wide > max as u128 {
            assert(decimal_value(digits@) > max);
            return None;
        }
        value = wide as u64;
        i += 1;
    }
    assert(digits@.take(i as int) =~= digits@);
    Some(value)
}

/// The decimal digits of `n`.
pub fn digits(n: u64) -> (r: String)
    ensures
        r@ == decimal(n as nat),
    decreases n,
{
    let last: char = ((n % 10) as u8 + 48) as char;
    if n < 10 {
        let mut out: String = String::new();
        out.push(last);
        assert(out@ =~= decimal(n as nat));
        out
    } else {
        let mut out: String = digits(n / 10);
        out.push(last);
        out
    }
}

/// What a line of hexadecimal digits denotes as a chunk size: `None` where the line is
/// no such line, and 0 where the number does not fit 32 bits.
pub open spec fn chunk_size(s: Seq<char>) -> Option<nat> {
    if s.len() > 0 && forall|i: int| 0 <= i < s.len() ==> is_hex_digit(#[trigger] s[i]) {
        Some(
            if hex_value(s) <= u32::MAX {
                hex_value(s)
            } else {
                0
            },
        )
    } else {
        None
    }
}

/// Reads a line as a chunk size.
pub fn read_chunk_size(s: &[char]) -> (r: Option<u32>)
    ensures
        match r {
            Some(v) => chunk_size(s@) == Some(v as nat),
            None => chunk_size(s@) is None,
        },
{
    if s.len() == 0 {
        return None;
    }
    let mut value: u64 = 0;
    let mut over: bool = false;
    let mut i: usize = 0;
    while i < s.len()
        invariant
            i <= s@.len(),
            s@.len() > 0,
            value <= u32::MAX,
            !over ==> value == hex_value(s@.take(i as int)),
            over ==> hex_value(s@.take(i as int)) > u32::MAX,
            forall|k: int| 0 <= k < i ==> is_hex_digit(#[trigger] s@[k]),
        decreases s@.len() - i,
    {
        let c: char = s[i];
        let d: u64 = if '0' <= c && c <= '9' {
            (c as u32 - '0' as u32) as u64
        } else if 'a' <= c && c <= 'f' {
            (c as u32 - 'a' as u32 + 10) as u64
        } else if 'A' <= c && c <= 'F' {
            (c as u32 - 'A' as u32 + 10) as u64
        } else {
            assert(!is_hex_digit(s@[i as int]));
            return None;
        };
        proof {
            assert(s@.take(i + 1).drop_last() =~= s@.take(i as int));
            assert(d == hex_digit_value(c));
        }
        if !over {
            value = value * 16 + d;
            if value > u32::MAX as u64 {
                over = true;
                value = 0;
            }
        }
        i += 1;
    }
    assert(s@.take(i as int) =~= s@);
    if over {
        Some(0)
    } else {
        Some(value as u32)
    }
}

pub(crate) proof fn lemma_join_first(pieces: Seq<Seq<char>>, sep: Seq<char>)
    requires
        pieces.len() > 1,
    ensures
        join(pieces, sep) == pieces[0] + sep + join(pieces.drop_first(), sep),
    decreases pieces.len(),
{
    let rest = pieces.drop_first();
    if pieces.len() == 2 {
        assert(pieces.drop_last() =~= seq![pieces[0]]);
        assert(join(pieces.drop_last(), sep) == pieces[0]);
        assert(join(rest, sep) == pieces[1]);
        assert(join(pieces, sep) =~= pieces[0] + sep + join(rest, sep));
    } else {
        lemma_join_first(pieces.drop_last(), sep);
        assert(pieces.drop_last().drop_first() =~= rest.drop_last());
        assert(join(pieces, sep) =~= pieces[0] + sep + join(rest, sep));
    }
}

/// The pieces of a text, joined with the separator, are the text again, and no piece holds the
/// separator.
pub proof fn law_pieces_join_to_the_text(s: Seq<char>, sep: Seq<char>)
    requires
        sep.len() > 0,
    ensures
        join(split(s, sep), sep) == s,
        split(s, sep).len() > 0,
        forall|i: int|
            0 <= i < split(s, sep).len() ==> !contains(#[trigger] split(s, sep)[i], sep),
    decreases s.len(),
{
    lemma_find(s, sep);
    match find(s, sep) {
        None => {
            assert(split(s, sep) =~= seq![s]);
        },
        Some(i) => {
            let rest = s.skip(i + sep.len());
            let head = s.take(i);
            law_pieces_join_to_the_text(rest, sep);
            let all = split(s, sep);
            assert(all.drop_first() =~= split(rest, sep));
            assert(all[0] == head);
            lemma_join_first(all, sep);
            assert(s.subrange(i, i + sep.len()) =~= sep);
            assert(head + sep + rest =~= s);
            assert(!contains(head, sep)) by {
                if contains(head, sep) {
                    let k = choose|k: int| occurs_at(head, sep, k);
                    assert(head.subrange(k, k + sep.len()) =~= s.subrange(k, k + sep.len()));
                    assert(occurs_at(s, sep, k));
                }
            }
            assert forall|j: int| 0 <= j < all.len() implies !contains(#[trigger] all[j], sep) by {
                if j > 0 {
                    assert(all[j] == split(rest, sep)[j - 1]);
                }
            }
        },
    }
}

proof fn lemma_decimal(n: nat)
    ensures
        decimal(n).len() > 0,
        all_digits(decimal(n)),
        decimal_value(decimal(n)) == n,
    decreases n,
{
    let c = ((n % 10 + 48) as u8) as char;
    assert(decimal(n).last() == c);
    assert(c as nat == n % 10 + 48);
    if n < 10 {
        assert(decimal(n).drop_last() =~= Seq::empty());
        assert(decimal_value(decimal(n).drop_last()) == 0);
    } else {
        lemma_decimal(n / 10);
        assert(decimal(n).drop_last() =~= decimal(n / 10));
        assert forall|i: int| 0 <= i < decimal(n).len() implies is_digit(
            #[trigger] decimal(n)[i],
        ) by {
            if i < decimal(n / 10).len() {
                assert(decimal(n)[i] == decimal(n / 10)[i]);
            }
        }
    }
}

/// A number that is written in decimal is read back, where it is not above the limit. It is
/// written with digits alone, no white space among them.
pub proof fn law_numbers_are_read_back(n: nat, max: nat)
    ensures
        parse_unsigned(decimal(n), max) == if n <= max {
            Some(n)
        } else {
            None
        },
        decimal(n).len() > 0,
        forall|i: int| 0 <= i < decimal(n).len() ==> '0' <= #[trigger] decimal(n)[i] <= '9',
{
    lemma_decimal(n);
    assert(is_digit(decimal(n)[0]));
    assert(without_plus(decimal(n)) == decimal(n));
    assert forall|i: int| 0 <= i < decimal(n).len() implies '0' <= #[trigger] decimal(n)[i]
        <= '9' by {
        assert(is_digit(decimal(n)[i]));
    }
}

/// Each further digit makes the number written ten times as large, and adds what it stands for.
pub proof fn law_digits_count_ten_times_the_next(n: nat, d: nat)
    requires
        n > 0,
        d < 10,
    ensures
        decimal(10 * n + d) == decimal(n).push(((48 + d) as u8) as char),
        decimal(d) == seq![((48 + d) as u8) as char],
{
    assert((10 * n + d) / 10 == n && (10 * n + d) % 10 == d);
}

/// White space before a text goes.
pub(crate) proof fn lemma_trim_start_all(a: Seq<char>, s: Seq<char>)
    requires
        is_blank(a),
    ensures
        trim_start(a + s) == trim_start(s),
    decreases a.len(),
{
    if a.len() > 0 {
        assert(is_whitespace(a[0]));
        let b = a.drop_first();
        assert forall|i: int| 0 <= i < b.len() implies is_whitespace(#[trigger] b[i]) by {
            assert(b[i] == a[i + 1]);
        }
        assert((a + s).drop_first() =~= b + s);
        lemma_trim_start_all(b, s);
    } else {
        assert(a + s =~= s);
    }
}

proof fn lemma_trim_end_all(s: Seq<char>, b: Seq<char>)
    requires
        is_blank(b),
    ensures
        trim_end(s + b) == trim_end(s),
    decreases b.len(),
{
    if b.len() > 0 {
        assert(is_whitespace(b[b.len() - 1]));
        let c = b.drop_last();
        assert forall|i: int| 0 <= i < c.len() implies is_whitespace(#[trigger] c[i]) by {
            assert(c[i] == b[i]);
        }
        assert((s + b).drop_last() =~= s + c);
        lemma_trim_end_all(s, c);
    } else {
        assert(s + b =~= s);
    }
}

/// Trimming takes the white space at both ends off, and nothing else.
pub proof fn law_trimming_takes_white_space_off(a: Seq<char>, s: Seq<char>, b: Seq<char>)
    requires
        is_blank(a),
        is_blank(b),
        s.len() > 0 ==> !is_whitespace(s[0]) && !is_whitespace(s.last()),
    ensures
        trim(a + s + b) == s,
{
    assert(a + s + b =~= a + (s + b));
    lemma_trim_start_all(a, s + b);
    if s.len() > 0 {
        assert((s + b)[0] == s[0]);
        lemma_trim_end_all(s, b);
    } else {
        assert(s + b =~= b + s);
        lemma_trim_start_all(b, s);
    }
}

} // verus!
