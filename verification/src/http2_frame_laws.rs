//! Laws of HTTP/2 frames: what bytes are frames, and what they say.

use crate::bytes;
use crate::http2_frame;
use crate::http2_frame::FrameModel;
use vstd::prelude::*;

verus! {

/// A frame in bytes: three for the length of its payload, one for the type, one for the flags,
/// four for the stream, each number with its first byte counting most, and the payload.
pub open spec fn is_frame(b: Seq<u8>, f: FrameModel) -> bool {
    &&& b.len() == 9 + f.payload.len()
    &&& 65536 * b[0] + 256 * b[1] + b[2] == f.payload.len()
    &&& b[3] == f.frame_type
    &&& b[4] == f.flags
    &&& 16777216 * b[5] + 65536 * b[6] + 256 * b[7] + b[8] == f.stream_id || 16777216 * b[5]
        + 65536 * b[6] + 256 * b[7] + b[8] == f.stream_id + 0x8000_0000
    &&& f.stream_id < 0x8000_0000
    &&& b.skip(9) == f.payload
}

proof fn lemma_value3(b: Seq<u8>)
    requires
        b.len() == 3,
    ensures
        bytes::be_value(b) == 65536 * b[0] + 256 * b[1] + b[2],
{
    reveal_with_fuel(bytes::be_value, 4);
    let c = b.drop_last();
    let d = c.drop_last();
    assert(d.drop_last() =~= Seq::empty());
    assert(bytes::be_value(d) == b[0]);
    assert(bytes::be_value(c) == 256 * b[0] + b[1]);
}

proof fn lemma_value4(b: Seq<u8>)
    requires
        b.len() == 4,
    ensures
        bytes::be_value(b) == 16777216 * b[0] + 65536 * b[1] + 256 * b[2] + b[3],
{
    lemma_value3(b.drop_last());
}

/// Bytes that begin with a frame give that frame and then those of the rest, each without the
/// first bit of the stream's number. Frames of types above 9 are left out.
proof fn lemma_frame_first(b: Seq<u8>, f: FrameModel, rest: Seq<u8>)
    requires
        is_frame(b, f),
    ensures
        http2_frame::whole_frames(b + rest) == match http2_frame::whole_frames(rest) {
            Some(more) => Some(
                if f.frame_type <= 9 {
                    seq![f] + more
                } else {
                    more
                },
            ),
            None => None,
        },
{
    let s = b + rest;
    assert(s.take(3) =~= b.take(3));
    lemma_value3(s.take(3));
    lemma_value4(s.subrange(5, 9));
    assert(s.subrange(5, 9) =~= b.subrange(5, 9));
    let n = f.payload.len() as int;
    assert(s.skip(9 + n) =~= rest);
    assert(s.subrange(9, 9 + n) =~= b.skip(9));
    assert(http2_frame::first_frame(s) == f);
}

/// Captured bytes that begin with a frame and not with the words of a client give the frame, and
/// what stands behind it gives the rest: more frames, or nothing at all where it is cut off.
pub proof fn law_frames_are_read_one_by_one(
    b: Seq<u8>,
    f: FrameModel,
    c: Seq<u8>,
    g: FrameModel,
    n: int,
)
    requires
        is_frame(b, f),
        is_frame(c, g),
        b[0] != 0x50,
        f.frame_type <= 9,
        0 < n < c.len(),
    ensures
        http2_frame::frames_in(b) == Some(seq![f]),
        http2_frame::frames_in(b + c) == Some(
            if g.frame_type <= 9 {
                seq![f, g]
            } else {
                seq![f]
            },
        ),
        http2_frame::frames_in(b + c.take(n)) is None,
        http2_frame::frames_in(b.take(n)) is None || n >= b.len(),
{
    let none = Seq::<u8>::empty();
    assert(http2_frame::whole_frames(none) == Some(Seq::<FrameModel>::empty()));
    lemma_frame_first(b, f, none);
    lemma_frame_first(c, g, none);
    assert(b + none =~= b);
    assert(c + none =~= c);
    assert(seq![f] + Seq::<FrameModel>::empty() =~= seq![f]);
    assert(seq![g] + Seq::<FrameModel>::empty() =~= seq![g]);
    lemma_frame_first(b, f, c);
    assert(seq![f] + seq![g] =~= seq![f, g]);
    lemma_no_preface(b);
    lemma_no_preface(b + c);
    lemma_no_preface(b + c.take(n));
    lemma_cut(c, g, n);
    lemma_frame_first(b, f, c.take(n));
    if n < b.len() {
        lemma_cut(b, f, n);
        lemma_no_preface(b.take(n));
    }
}

proof fn lemma_no_preface(b: Seq<u8>)
    requires
        b.len() > 0,
        b[0] != 0x50,
    ensures
        http2_frame::without_preface(b) == b,
{
    if b.len() >= 24 {
        assert(b.take(24)[0] == b[0]);
        assert(http2_frame::preface()[0] == 0x50);
    }
}

proof fn lemma_cut(b: Seq<u8>, f: FrameModel, n: int)
    requires
        is_frame(b, f),
        0 < n < b.len(),
    ensures
        http2_frame::whole_frames(b.take(n)) is None,
{
    let s = b.take(n);
    if n >= 9 {
        assert(s.take(3) =~= b.take(3));
        lemma_value3(s.take(3));
    }
}

/// The words of a client before its first frame, `PRI * HTTP/2.0` and what follows on them, are
/// left out.
pub proof fn law_the_words_of_a_client_are_left_out(b: Seq<u8>)
    requires
        b.len() > 0,
        b[0] != 0x50,
    ensures
        http2_frame::frames_in(
            vstd::utf8::encode_utf8("PRI * HTTP/2.0\r\n\r\nSM\r\n\r\n"@) + b,
        ) == http2_frame::frames_in(b),
{
    let words = "PRI * HTTP/2.0\r\n\r\nSM\r\n\r\n"@;
    reveal_strlit("PRI * HTTP/2.0\r\n\r\nSM\r\n\r\n");
    assert(words.len() == 24);
    assert(vstd::utf8::is_ascii_chars(words)) by {
        assert forall|i: int| 0 <= i < words.len() implies (#[trigger] words[i] as u32) < 128 by {}
    }
    vstd::utf8::is_ascii_chars_encode_utf8(words);
    let p = vstd::utf8::encode_utf8(words);
    assert(p =~= http2_frame::preface());
    assert((p + b).take(24) =~= p);
    assert((p + b).skip(24) =~= b);
    lemma_no_preface(b);
}

} // verus!
