//! Bytes and the texts that stand for them.

use crate::text;
use vstd::prelude::*;

verus! {

/// The lower-case hexadecimal digit for a number below 16.
pub open spec fn hex_digit(n: int) -> char {
    if n < 10 {
        ((n + 48) as u8) as char
    } else {
        ((n + 87) as u8) as char
    }
}

/// Two lower-case hexadecimal digits for each byte.
pub open spec fn hex_text(bytes: Seq<u8>) -> Seq<char> {
    Seq::new(
        bytes.len() * 2,
        |i: int|
            if i % 2 == 0 {
                hex_digit(bytes[i / 2] as int / 16)
            } else {
                hex_digit(bytes[i / 2] as int % 16)
            },
    )
}

/// A text of hexadecimal digits of either case, two for each byte.
pub open spec fn is_hex_text(s: Seq<char>) -> bool {
    s.len() % 2 == 0 && forall|i: int| 0 <= i < s.len() ==> text::is_hex_digit(#[trigger] s[i])
}

/// The bytes that such a text stands for.
pub open spec fn hex_bytes(s: Seq<char>) -> Seq<u8> {
    Seq::new(
        s.len() / 2,
        |i: int|
            (text::hex_digit_value(s[2 * i]) * 16 + text::hex_digit_value(s[2 * i + 1])) as u8,
    )
}

/// `hex::encode`: two lower-case digits for each byte, the high half first.
#[verifier::external_body]
pub(crate) fn hex_encode(bytes: &[u8]) -> (r: String)
    ensures
        r@ == hex_text(bytes@),
{
    hex::encode(bytes)
}

/// `hex::decode`: digits of either case, two for each byte. It reports an error on a text of odd
/// length and on one with any other character.
#[verifier::external_body]
pub(crate) fn hex_decode(s: &str) -> (r: Option<Vec<u8>>)
    ensures
        match r {
            Some(v) => is_hex_text(s@) && v@ == hex_bytes(s@),
            None => !is_hex_text(s@),
        },
{
    hex::decode(s).ok()
}

/// What `String::from_utf8_lossy` makes of bytes that are not valid UTF-8.
pub uninterp spec fn lossy_text(bytes: Seq<u8>) -> Seq<char>;

/// The text that bytes encode, with replacements where they are not valid UTF-8.
pub open spec fn text_of_bytes(bytes: Seq<u8>) -> Seq<char> {
    if vstd::utf8::valid_utf8(bytes) {
        vstd::utf8::decode_utf8(bytes)
    } else {
        lossy_text(bytes)
    }
}

/// `String::from_utf8_lossy`. It decodes valid UTF-8; what it makes of other bytes depends on
/// them alone.
#[verifier::external_body]
pub(crate) fn from_utf8_lossy(bytes: &[u8]) -> (r: String)
    ensures
        r@ == (if vstd::utf8::valid_utf8(bytes@) {
            vstd::utf8::decode_utf8(bytes@)
        } else {
            lossy_text(bytes@)
        }),
{
    String::from_utf8_lossy(bytes).into_owned()
}

/// `String::from_utf8`. It decodes valid UTF-8, and reports an error on other bytes.
#[verifier::external_body]
pub(crate) fn from_utf8(bytes: Vec<u8>) -> (r: Option<String>)
    ensures
        match r {
            Some(s) => vstd::utf8::valid_utf8(bytes@) && s@ == vstd::utf8::decode_utf8(bytes@),
            None => !vstd::utf8::valid_utf8(bytes@),
        },
{
    String::from_utf8(bytes).ok()
}

/// The bytes that one character of a captured text stands for: a byte of the same number, or the
/// UTF-8 encoding of a character that no byte numbers.
pub open spec fn char_bytes(c: char) -> Seq<u8> {
    if c as u32 <= 0xff {
        seq![c as u8]
    } else {
        vstd::utf8::encode_utf8(seq![c])
    }
}

/// The bytes that a captured text stands for, character by character.
pub open spec fn captured_bytes(s: Seq<char>) -> Seq<u8>
    decreases s.len(),
{
    if s.len() == 0 {
        Seq::empty()
    } else {
        captured_bytes(s.drop_last()) + char_bytes(s.last())
    }
}

/// The bytes that a captured text stands for.
pub fn ssl_json_string_to_bytes(data: &str) -> (r: Vec<u8>)
    ensures
        r@ == captured_bytes(data@),
{
    let all: Vec<char> = text::chars(data);
    let mut bytes: Vec<u8> = Vec::new();
    let mut i: usize = 0;
    while i < all.len()
        invariant
            i <= all@.len(),
            all@ == data@,
            bytes@ == captured_bytes(data@.take(i as int)),
        decreases all@.len() - i,
    {
        let c: char = all[i];
        proof {
            assert(data@.take(i + 1).drop_last() =~= data@.take(i as int));
            assert(data@.take(i + 1).last() == c);
        }
        if c as u32 <= 0xff {
            bytes.push(c as u8);
            assert(bytes@ =~= captured_bytes(data@.take(i + 1)));
        } else {
            let mut one: String = String::new();
            one.push(c);
            assert(one@ =~= seq![c]);
            let encoded: &[u8] = one.as_str().as_bytes();
            bytes.extend_from_slice(encoded);
            assert(bytes@ =~= captured_bytes(data@.take(i + 1)));
        }
        i += 1;
    }
    assert(data@.take(i as int) =~= data@);
    bytes
}

/// The number that bytes denote, the most significant one first.
pub open spec fn be_value(s: Seq<u8>) -> nat
    decreases s.len(),
{
    if s.len() == 0 {
        0
    } else {
        be_value(s.drop_last()) * 256 + s.last() as nat
    }
}

/// 256 to the power `k`.
pub open spec fn power_256(k: nat) -> nat
    decreases k,
{
    if k == 0 {
        1
    } else {
        256 * power_256((k - 1) as nat)
    }
}

/// `n` in `k` bytes, the most significant one first.
pub open spec fn be_bytes(n: nat, k: nat) -> Seq<u8>
    decreases k,
{
    if k == 0 {
        Seq::empty()
    } else {
        be_bytes(n / 256, (k - 1) as nat).push((n % 256) as u8)
    }
}

pub proof fn lemma_be_value_bound(s: Seq<u8>)
    ensures
        be_value(s) < power_256(s.len()),
    decreases s.len(),
{
    if s.len() > 0 {
        lemma_be_value_bound(s.drop_last());
    }
}

/// Numbers written in so many bytes are read back as they were.
pub proof fn law_big_endian_gives_the_number_back(n: nat, k: nat)
    requires
        n < power_256(k),
    ensures
        be_bytes(n, k).len() == k,
        be_value(be_bytes(n, k)) == n,
    decreases k,
{
    if k > 0 {
        assert(n / 256 < power_256((k - 1) as nat));
        law_big_endian_gives_the_number_back(n / 256, (k - 1) as nat);
        assert(be_bytes(n, k).drop_last() =~= be_bytes(n / 256, (k - 1) as nat));
    }
}

pub proof fn lemma_power_256()
    ensures
        power_256(2) == 0x1_0000,
        power_256(3) == 0x100_0000,
        power_256(4) == 0x1_0000_0000,
        power_256(7) == 0x100_0000_0000_0000,
        power_256(8) == 0x1_0000_0000_0000_0000,
{
    reveal_with_fuel(power_256, 9);
}

/// Reads the number that `count` bytes from `start` on denote.
pub fn read_be(bytes: &[u8], start: usize, count: usize) -> (r: u64)
    requires
        start + count <= bytes@.len(),
        count <= 8,
    ensures
        r == be_value(bytes@.subrange(start as int, start + count)),
{
    let ghost all = bytes@.subrange(start as int, start + count);
    let total: usize = bytes.len();
    let mut value: u64 = 0;
    let mut i: usize = 0;
    while i < count
        invariant
            i <= count <= 8,
            bytes@.len() == total,
            start + count <= bytes@.len(),
            all == bytes@.subrange(start as int, start + count),
            value == be_value(all.take(i as int)),
        decreases count - i,
    {
        proof {
            assert(all.take(i + 1).drop_last() =~= all.take(i as int));
            assert(all.take(i + 1).last() == bytes@[start + i]);
            lemma_be_value_bound(all.take(i as int));
            reveal_with_fuel(power_256, 9);
        }
        value = value * 256 + bytes[start + i] as u64;
        i += 1;
    }
    assert(all.take(i as int) =~= all);
    value
}

/// The text of bytes; none for no bytes.
pub fn body_string(body: &[u8]) -> (r: Option<String>)
    ensures
        text::optional_view(r) == (if body@.len() == 0 {
            None
        } else {
            Some(text_of_bytes(body@))
        }),
{
    if body.len() == 0 {
        None
    } else {
        Some(from_utf8_lossy(body))
    }
}

/// The captured text for bytes: one character for each byte, of the same number.
pub open spec fn byte_chars(bytes: Seq<u8>) -> Seq<char> {
    Seq::new(bytes.len(), |i: int| bytes[i] as char)
}

/// Bytes written down one character for each are read back as they were.
pub proof fn law_captured_text_gives_the_bytes_back(bytes: Seq<u8>)
    ensures
        captured_bytes(byte_chars(bytes)) == bytes,
    decreases bytes.len(),
{
    let s = byte_chars(bytes);
    if bytes.len() > 0 {
        law_captured_text_gives_the_bytes_back(bytes.drop_last());
        assert(s.drop_last() =~= byte_chars(bytes.drop_last()));
        assert(bytes.drop_last() + seq![bytes.last()] =~= bytes);
    } else {
        assert(captured_bytes(s) =~= bytes);
    }
}

/// What is written in hexadecimal is read back as it was.
pub proof fn law_hex_gives_the_bytes_back(bytes: Seq<u8>)
    ensures
        is_hex_text(hex_text(bytes)),
        hex_bytes(hex_text(bytes)) == bytes,
{
    let s = hex_text(bytes);
    assert forall|i: int| 0 <= i < s.len() implies text::is_hex_digit(#[trigger] s[i]) by {
        let b = bytes[i / 2];
        assert(0 <= b as int / 16 < 16 && 0 <= b as int % 16 < 16);
    }
    assert forall|i: int| 0 <= i < bytes.len() implies hex_bytes(s)[i] == bytes[i] by {
        let b = bytes[i] as int;
        assert((2 * i) / 2 == i && (2 * i) % 2 == 0);
        assert((2 * i + 1) / 2 == i && (2 * i + 1) % 2 == 1);
        assert(s[2 * i] == hex_digit(b / 16));
        assert(s[2 * i + 1] == hex_digit(b % 16));
        assert(text::hex_digit_value(hex_digit(b / 16)) == b / 16);
        assert(text::hex_digit_value(hex_digit(b % 16)) == b % 16);
    }
    assert(hex_bytes(s) =~= bytes);
}

} // verus!
