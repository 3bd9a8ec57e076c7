//! HTTP/2 header blocks, decoded by `hpack`.

use crate::assoc;
use crate::bytes;
use crate::headers::HeaderMap;
use crate::text;
use vstd::prelude::*;
use vstd::slice::slice_subrange;

verus! {

/// The continuation of an integer from `q` on, of which `used` bytes have been read. An integer
/// takes five bytes at most.
pub open spec fn integer_rest(b: Seq<u8>, q: int, used: int, scale: int, value: int) -> Option<
    (int, int),
>
    decreases 5 - used,
{
    if q < 0 || q >= b.len() || used >= 5 {
        None
    } else {
        let sum = value + (b[q] % 128) * scale;
        if b[q] < 128 {
            Some((sum, q + 1))
        } else {
            integer_rest(b, q + 1, used + 1, scale * 128, sum)
        }
    }
}

/// The integer that starts in the low bits of the byte at `p`, and where it ends. The low bits
/// hold it where it is less than `full`, the number with all of them set.
pub open spec fn integer_at(b: Seq<u8>, p: int, full: int) -> Option<(int, int)> {
    if p < 0 || p >= b.len() {
        None
    } else {
        let value = b[p] as int % (full + 1);
        if value < full {
            Some((value, p + 1))
        } else {
            integer_rest(b, p + 1, 1, 1, value)
        }
    }
}

/// Where the string that starts at `p` ends.
pub open spec fn string_end(b: Seq<u8>, p: int) -> Option<int> {
    match integer_at(b, p, 127) {
        Some((length, q)) => if q + length <= b.len() {
            Some(q + length)
        } else {
            None
        },
        None => None,
    }
}

/// Where the literal field that starts at `p` ends: an integer, a name unless the integer stands
/// for one, and a value.
pub open spec fn literal_end(b: Seq<u8>, p: int, full: int) -> Option<int> {
    match integer_at(b, p, full) {
        Some((index, q)) => if index == 0 {
            match string_end(b, q) {
                Some(r) => string_end(b, r),
                None => None,
            }
        } else {
            string_end(b, q)
        },
        None => None,
    }
}

/// The byte at `p` starts a change of the table size.
pub open spec fn is_size_update(b: Seq<u8>, p: int) -> bool {
    32 <= b[p] < 64
}

/// Where the item that starts at `p` ends; `None` where it does not end within the block.
pub open spec fn item_end(b: Seq<u8>, p: int) -> Option<int> {
    if b[p] >= 128 {
        match integer_at(b, p, 127) {
            Some((_, q)) => Some(q),
            None => None,
        }
    } else if b[p] >= 64 {
        literal_end(b, p, 63)
    } else if b[p] >= 32 {
        match integer_at(b, p, 31) {
            Some((_, q)) => Some(q),
            None => None,
        }
    } else {
        literal_end(b, p, 15)
    }
}

/// Where, from `p` on, the first item stands that is a change of the table size without an end.
pub open spec fn broken_update_from(b: Seq<u8>, p: int) -> Option<int>
    decreases b.len() - p,
{
    if p < 0 || p >= b.len() {
        None
    } else {
        match item_end(b, p) {
            Some(q) => if p < q <= b.len() {
                broken_update_from(b, q)
            } else {
                None
            },
            None => if is_size_update(b, p) {
                Some(p)
            } else {
                None
            },
        }
    }
}

/// Where the first change of the table size without an end stands.
pub open spec fn broken_update(b: Seq<u8>) -> Option<int> {
    broken_update_from(b, 0)
}

/// `hpack`'s decoder.
#[verifier::external_type_specification]
#[verifier::external_body]
pub struct ExDecoder<'a>(hpack::Decoder<'a>);

/// The blocks that a decoder was given since it was made.
pub uninterp spec fn hpack_blocks(d: hpack::Decoder<'static>) -> Seq<Seq<u8>>;

/// The fields that `Decoder::decode` gives for the last of these blocks, after the earlier ones;
/// `None` where it reports an error.
pub uninterp spec fn hpack_fields(blocks: Seq<Seq<u8>>) -> Option<Seq<(Seq<u8>, Seq<u8>)>>;

/// The names and values that a list of fields holds.
pub open spec fn pairs_view(v: Seq<(Vec<u8>, Vec<u8>)>) -> Seq<(Seq<u8>, Seq<u8>)> {
    Seq::new(v.len(), |i: int| (v[i].0@, v[i].1@))
}

/// `hpack::Decoder::new`: it has been given no block yet.
#[verifier::external_body]
pub(crate) fn new_decoder() -> (r: hpack::Decoder<'static>)
    ensures
        hpack_blocks(r) == Seq::<Seq<u8>>::empty(),
{
    hpack::Decoder::new()
}

/// `hpack::Decoder::decode`. The fields that it gives depend on the blocks that the decoder was
/// given. It panics on a change of the table size that has no end in the block.
#[verifier::external_body]
fn decode(d: &mut hpack::Decoder<'static>, block: &[u8]) -> (r: Option<Vec<(Vec<u8>, Vec<u8>)>>)
    requires
        broken_update(block@) is None,
    ensures
        hpack_blocks(*final(d)) == hpack_blocks(*old(d)).push(block@),
        match r {
            Some(v) => hpack_fields(hpack_blocks(*final(d))) == Some(pairs_view(v@)),
            None => hpack_fields(hpack_blocks(*final(d))) is None,
        },
{
    d.decode(block).ok()
}

fn read_integer(b: &[u8], p: usize, full: u8) -> (r: Option<(u64, usize)>)
    requires
        p < b@.len(),
        full == 15 || full == 31 || full == 63 || full == 127,
    ensures
        match r {
            Some((value, q)) => integer_at(b@, p as int, full as int) == Some(
                (value as int, q as int),
            ) && p < q <= b@.len() && value < 0x1_0000_0000,
            None => integer_at(b@, p as int, full as int) is None,
        },
{
    let total: usize = b.len();
    let start: u8 = b[p] % (full + 1);
    if start < full {
        return Some((start as u64, p + 1));
    }
    let mut value: u64 = start as u64;
    let mut scale: u64 = 1;
    let mut used: u8 = 1;
    let mut q: usize = p + 1;
    while q < total && used < 5
        invariant
            p < q <= total,
            total == b@.len(),
            1 <= used <= 5,
            used == 1 ==> scale == 1 && value < 128,
            used == 2 ==> scale == 128 && value < 256,
            used == 3 ==> scale == 0x4000 && value < 0x8000,
            used == 4 ==> scale == 0x20_0000 && value < 0x40_0000,
            used == 5 ==> value < 0x2000_0000,
            integer_at(b@, p as int, full as int) == integer_rest(
                b@,
                q as int,
                used as int,
                scale as int,
                value as int,
            ),
        decreases 5 - used,
    {
        let digit: u64 = (b[q] % 128) as u64;
        assert(digit * scale <= 127 * scale) by (nonlinear_arith)
            requires
                digit <= 127,
        ;
        value = value + digit * scale;
        if b[q] < 128 {
            return Some((value, q + 1));
        }
        scale = scale * 128;
        used = used + 1;
        q = q + 1;
    }
    None
}

fn end_of_string(b: &[u8], p: usize) -> (r: Option<usize>)
    requires
        p <= b@.len(),
    ensures
        match r {
            Some(q) => string_end(b@, p as int) == Some(q as int) && p < q <= b@.len(),
            None => string_end(b@, p as int) is None,
        },
{
    let total: usize = b.len();
    if p >= total {
        return None;
    }
    match read_integer(b, p, 127) {
        Some((length, q)) => {
            if length <= (total - q) as u64 {
                Some(q + length as usize)
            } else {
                None
            }
        },
        None => None,
    }
}

fn end_of_literal(b: &[u8], p: usize, full: u8) -> (r: Option<usize>)
    requires
        p < b@.len(),
        full == 15 || full == 63,
    ensures
        match r {
            Some(q) => literal_end(b@, p as int, full as int) == Some(q as int) && p < q
                <= b@.len(),
            None => literal_end(b@, p as int, full as int) is None,
        },
{
    match read_integer(b, p, full) {
        Some((index, q)) => {
            if index == 0 {
                match end_of_string(b, q) {
                    Some(r) => end_of_string(b, r),
                    None => None,
                }
            } else {
                end_of_string(b, q)
            }
        },
        None => None,
    }
}

fn end_of_item(b: &[u8], p: usize) -> (r: Option<usize>)
    requires
        p < b@.len(),
    ensures
        match r {
            Some(q) => item_end(b@, p as int) == Some(q as int) && p < q <= b@.len(),
            None => item_end(b@, p as int) is None,
        },
{
    let first: u8 = b[p];
    if first >= 128 {
        match read_integer(b, p, 127) {
            Some((_, q)) => Some(q),
            None => None,
        }
    } else if first >= 64 {
        end_of_literal(b, p, 63)
    } else if first >= 32 {
        match read_integer(b, p, 31) {
            Some((_, q)) => Some(q),
            None => None,
        }
    } else {
        end_of_literal(b, p, 15)
    }
}

/// Finds the first change of the table size without an end.
pub fn find_broken_update(b: &[u8]) -> (r: Option<usize>)
    ensures
        match r {
            Some(k) => broken_update(b@) == Some(k as int) && k < b@.len(),
            None => broken_update(b@) is None,
        },
{
    let mut p: usize = 0;
    while p < b.len()
        invariant
            p <= b@.len(),
            broken_update(b@) == broken_update_from(b@, p as int),
        decreases b@.len() - p,
    {
        match end_of_item(b, p) {
            Some(q) => {
                p = q;
            },
            None => {
                if b[p] >= 32 && b[p] < 64 {
                    return Some(p);
                }
                return None;
            },
        }
    }
    None
}

proof fn lemma_rest_bounds(b: Seq<u8>, q: int, used: int, scale: int, value: int)
    requires
        0 <= q,
        scale >= 0,
        value >= 0,
    ensures
        match integer_rest(b, q, used, scale, value) {
            Some((v, r)) => v >= 0 && q < r <= b.len(),
            None => true,
        },
    decreases 5 - used,
{
    if q < b.len() && used < 5 {
        let sum = value + (b[q] % 128) * scale;
        assert((b[q] % 128) * scale >= 0) by (nonlinear_arith)
            requires
                scale >= 0,
        ;
        if b[q] >= 128 {
            lemma_rest_bounds(b, q + 1, used + 1, scale * 128, sum);
        }
    }
}

proof fn lemma_positive_integer(b: Seq<u8>, p: int, full: int)
    requires
        0 <= p,
        full >= 0,
    ensures
        match integer_at(b, p, full) {
            Some((v, q)) => v >= 0 && p < q <= b.len(),
            None => true,
        },
{
    if p < b.len() {
        lemma_rest_bounds(b, p + 1, 1, 1, b[p] as int % (full + 1));
    }
}

proof fn lemma_item_bounds(b: Seq<u8>, p: int)
    requires
        0 <= p < b.len(),
    ensures
        match item_end(b, p) {
            Some(q) => p < q <= b.len(),
            None => true,
        },
{
    assert forall|x: int, full: int| 0 <= x && full >= 0 implies match #[trigger] integer_at(
        b,
        x,
        full,
    ) {
        Some((v, q)) => v >= 0 && x < q <= b.len(),
        None => true,
    } by {
        lemma_positive_integer(b, x, full);
    }
}

proof fn lemma_prefix_is_sound(b: Seq<u8>, k: int, p: int)
    requires
        0 <= p <= k <= b.len(),
        broken_update_from(b, p) == Some(k),
    ensures
        broken_update_from(b.take(k), p) is None,
    decreases b.len() - p,
{
    let c = b.take(k);
    if p < k {
        lemma_item_bounds(b, p);
        assert(c[p] == b[p]);
        match item_end(b, p) {
            Some(q) => {
                lemma_broken_is_ahead(b, q, k);
                lemma_item_within(b, k, p, q);
                lemma_prefix_is_sound(b, k, q);
            },
            None => {},
        }
    }
}

proof fn lemma_broken_is_ahead(b: Seq<u8>, p: int, k: int)
    requires
        0 <= p <= b.len(),
        broken_update_from(b, p) == Some(k),
    ensures
        p <= k < b.len(),
    decreases b.len() - p,
{
    if p < b.len() {
        lemma_item_bounds(b, p);
        match item_end(b, p) {
            Some(q) => {
                lemma_broken_is_ahead(b, q, k);
            },
            None => {},
        }
    }
}

proof fn lemma_rest_within(b: Seq<u8>, k: int, q: int, used: int, scale: int, value: int)
    requires
        0 <= q,
        0 <= k <= b.len(),
        integer_rest(b, q, used, scale, value) is Some,
        (integer_rest(b, q, used, scale, value)->0).1 <= k,
    ensures
        integer_rest(b.take(k), q, used, scale, value) == integer_rest(b, q, used, scale, value),
    decreases 5 - used,
{
    let c = b.take(k);
    if q < b.len() && used < 5 {
        if b[q] >= 128 {
            let sum = value + (b[q] % 128) * scale;
            lemma_rest_order(b, q + 1, used + 1, scale * 128, sum);
            assert(c[q] == b[q]);
            lemma_rest_within(b, k, q + 1, used + 1, scale * 128, sum);
        } else {
            assert(c[q] == b[q]);
        }
    }
}

proof fn lemma_rest_order(b: Seq<u8>, q: int, used: int, scale: int, value: int)
    requires
        0 <= q,
    ensures
        match integer_rest(b, q, used, scale, value) {
            Some((_, r)) => q < r <= b.len(),
            None => true,
        },
    decreases 5 - used,
{
    if q < b.len() && used < 5 && b[q] >= 128 {
        lemma_rest_order(b, q + 1, used + 1, scale * 128, value + (b[q] % 128) * scale);
    }
}

proof fn lemma_integer_within(b: Seq<u8>, k: int, p: int, full: int)
    requires
        0 <= p,
        full >= 0,
        0 <= k <= b.len(),
        integer_at(b, p, full) is Some,
        (integer_at(b, p, full)->0).1 <= k,
    ensures
        integer_at(b.take(k), p, full) == integer_at(b, p, full),
{
    let value = b[p] as int % (full + 1);
    lemma_positive_integer(b, p, full);
    assert(b.take(k)[p] == b[p]);
    if value >= full {
        lemma_rest_within(b, k, p + 1, 1, 1, value);
    }
}

proof fn lemma_string_within(b: Seq<u8>, k: int, p: int)
    requires
        0 <= p,
        0 <= k <= b.len(),
        string_end(b, p) is Some,
        string_end(b, p)->0 <= k,
    ensures
        string_end(b.take(k), p) == string_end(b, p),
        p < string_end(b, p)->0,
{
    lemma_positive_integer(b, p, 127);
    lemma_integer_within(b, k, p, 127);
}

/// An item that ends within the first `k` bytes ends there too where the rest is cut off.
proof fn lemma_item_within(b: Seq<u8>, k: int, p: int, q: int)
    requires
        0 <= p < b.len(),
        item_end(b, p) == Some(q),
        q <= k <= b.len(),
    ensures
        item_end(b.take(k), p) == Some(q),
{
    lemma_item_bounds(b, p);
    assert(b.take(k)[p] == b[p]);
    if b[p] >= 128 {
        lemma_integer_within(b, k, p, 127);
    } else if 32 <= b[p] < 64 {
        lemma_integer_within(b, k, p, 31);
    } else {
        let full = if b[p] >= 64 {
            63int
        } else {
            15int
        };
        let (index, r) = integer_at(b, p, full)->0;
        lemma_positive_integer(b, p, full);
        if index == 0 {
            let s = string_end(b, r)->0;
            lemma_positive_integer(b, r, 127);
            lemma_positive_integer(b, s, 127);
            lemma_string_within(b, k, s);
            lemma_string_within(b, k, r);
            lemma_integer_within(b, k, p, full);
        } else {
            lemma_positive_integer(b, r, 127);
            lemma_string_within(b, k, r);
            lemma_integer_within(b, k, p, full);
        }
    }
}

/// The part of a block that a decoder can be given: what stands before a change of the table size
/// without an end.
pub open spec fn readable(b: Seq<u8>) -> Seq<u8> {
    match broken_update(b) {
        Some(k) => b.take(k),
        None => b,
    }
}

/// The fields that a block holds, after the blocks given before; none where it cannot be read to
/// its end.
pub open spec fn fields_of_block(blocks: Seq<Seq<u8>>, b: Seq<u8>) -> Option<
    Seq<(Seq<u8>, Seq<u8>)>,
> {
    match broken_update(b) {
        Some(_) => None,
        None => hpack_fields(blocks.push(b)),
    }
}

/// Decodes the next header block of a connection. A block that cannot be read to its end is read
/// as far as it goes, and gives nothing.
pub fn decode_block(d: &mut hpack::Decoder<'static>, block: &[u8]) -> (r: Option<
    Vec<(Vec<u8>, Vec<u8>)>,
>)
    ensures
        hpack_blocks(*final(d)) == hpack_blocks(*old(d)).push(readable(block@)),
        match r {
            Some(v) => fields_of_block(hpack_blocks(*old(d)), block@) == Some(pairs_view(v@)),
            None => fields_of_block(hpack_blocks(*old(d)), block@) is None,
        },
{
    match find_broken_update(block) {
        Some(k) => {
            let whole: &[u8] = slice_subrange(block, 0, k);
            proof {
                lemma_prefix_is_sound(block@, k as int, 0);
                assert(whole@ =~= block@.take(k as int));
            }
            let _ = decode(d, whole);
            None
        },
        None => decode(d, block),
    }
}

/// The header fields that decoded names and values are: names in lower case, of two with one name
/// the later one.
pub open spec fn named_fields(pairs: Seq<(Seq<u8>, Seq<u8>)>) -> Seq<(Seq<char>, Seq<char>)>
    decreases pairs.len(),
{
    if pairs.len() == 0 {
        Seq::empty()
    } else {
        assoc::set(
            named_fields(pairs.drop_last()),
            text::ascii_lowercase(bytes::text_of_bytes(pairs.last().0)),
            bytes::text_of_bytes(pairs.last().1),
        )
    }
}

/// The fields with a host: what the request names as its authority, unless it names a host too.
pub open spec fn with_host(fields: Seq<(Seq<char>, Seq<char>)>) -> Seq<(Seq<char>, Seq<char>)> {
    match assoc::lookup(fields, ":authority"@) {
        Some(authority) => if assoc::lookup(fields, "host"@) is None {
            assoc::set(fields, "host"@, authority)
        } else {
            fields
        },
        None => fields,
    }
}

/// Makes header fields of decoded names and values.
pub fn headers_from_fields(decoded: &Vec<(Vec<u8>, Vec<u8>)>) -> (r: HeaderMap)
    ensures
        r@ == with_host(named_fields(pairs_view(decoded@))),
{
    let mut headers: HeaderMap = HeaderMap::new();
    let mut i: usize = 0;
    let ghost all = pairs_view(decoded@);
    while i < decoded.len()
        invariant
            i <= decoded@.len(),
            all == pairs_view(decoded@),
            headers@ == named_fields(all.take(i as int)),
        decreases decoded@.len() - i,
    {
        proof {
            assert(all.take(i + 1).drop_last() =~= all.take(i as int));
            assert(all.take(i + 1).last() == (decoded@[i as int].0@, decoded@[i as int].1@));
        }
        let name: String = bytes::from_utf8_lossy(decoded[i].0.as_slice());
        let value: String = bytes::from_utf8_lossy(decoded[i].1.as_slice());
        let name_chars: Vec<char> = text::chars(name.as_str());
        let lower: Vec<char> = text::lower(name_chars.as_slice());
        headers.insert(text::string(lower.as_slice()), value);
        i += 1;
    }
    assert(all.take(i as int) =~= all);
    let authority: Option<String> = match headers.get(":authority") {
        Some(authority) => if headers.get("host").is_none() {
            Some(text::owned(authority))
        } else {
            None
        },
        None => None,
    };
    match authority {
        Some(authority) => {
            headers.insert(text::owned("host"), authority);
        },
        None => {},
    }
    headers
}

} // verus!
