//! HTTP/2 frames.

use crate::bytes;
use vstd::prelude::*;
use vstd::slice::slice_subrange;

verus! {

/// What a frame says.
pub struct FrameModel {
    pub frame_type: u8,
    pub flags: u8,
    pub stream_id: u32,
    pub payload: Seq<u8>,
}

/// A frame of a connection.
#[derive(Debug)]
pub struct HTTP2Frame<'a> {
    pub frame_type: u8,
    pub flags: u8,
    pub stream_id: u32,
    pub payload: &'a [u8],
}

impl<'a> View for HTTP2Frame<'a> {
    type V = FrameModel;

    open spec fn view(&self) -> FrameModel {
        FrameModel {
            frame_type: self.frame_type,
            flags: self.flags,
            stream_id: self.stream_id,
            payload: self.payload@,
        }
    }
}

/// What the frames of a list say.
pub open spec fn frames_view(v: Seq<HTTP2Frame<'_>>) -> Seq<FrameModel> {
    Seq::new(v.len(), |i: int| v[i]@)
}

/// What a client sends before its first frame: `PRI * HTTP/2.0`, a blank line, `SM`, and another.
pub open spec fn preface() -> Seq<u8> {
    seq![
        0x50u8,
        0x52u8,
        0x49u8,
        0x20u8,
        0x2au8,
        0x20u8,
        0x48u8,
        0x54u8,
        0x54u8,
        0x50u8,
        0x2fu8,
        0x32u8,
        0x2eu8,
        0x30u8,
        0x0du8,
        0x0au8,
        0x0du8,
        0x0au8,
        0x53u8,
        0x4du8,
        0x0du8,
        0x0au8,
        0x0du8,
        0x0au8,
    ]
}

/// `b` without the preface, where it begins with it.
pub open spec fn without_preface(b: Seq<u8>) -> Seq<u8> {
    if b.len() >= 24 && b.take(24) =~= preface() {
        b.skip(24)
    } else {
        b
    }
}

/// The length of the payload that the nine bytes at the start announce.
pub open spec fn announced_length(b: Seq<u8>) -> nat {
    bytes::be_value(b.take(3))
}

/// The frame at the start: three bytes of length, the type, the flags, four bytes of stream
/// number, of which the first bit is not part of it, and the payload.
pub open spec fn first_frame(b: Seq<u8>) -> FrameModel {
    FrameModel {
        frame_type: b[3],
        flags: b[4],
        stream_id: (bytes::be_value(b.subrange(5, 9)) % 0x8000_0000) as u32,
        payload: b.subrange(9, 9 + announced_length(b) as int),
    }
}

/// The frames that bytes are made of, without those of an unknown type; `None` where the bytes
/// are not whole frames.
pub open spec fn whole_frames(b: Seq<u8>) -> Option<Seq<FrameModel>>
    decreases b.len(),
{
    if b.len() == 0 {
        Some(Seq::empty())
    } else if b.len() < 9 || b.len() < 9 + announced_length(b) {
        None
    } else {
        match whole_frames(b.skip(9 + announced_length(b) as int)) {
            Some(rest) => if b[3] <= 9 {
                Some(seq![first_frame(b)] + rest)
            } else {
                Some(rest)
            },
            None => None,
        }
    }
}

/// The frames that captured bytes are: whole frames, at least one of a known type, after the
/// preface where there is one.
pub open spec fn frames_in(b: Seq<u8>) -> Option<Seq<FrameModel>> {
    match whole_frames(without_preface(b)) {
        Some(frames) => if frames.len() > 0 {
            Some(frames)
        } else {
            None
        },
        None => None,
    }
}

fn begins_with_preface(b: &[u8]) -> (r: bool)
    ensures
        r == (b@.len() >= 24 && b@.take(24) =~= preface()),
{
    b.len() >= 24 && b[0] == 0x50 && b[1] == 0x52 && b[2] == 0x49 && b[3] == 0x20 && b[4] == 0x2a
        && b[5] == 0x20 && b[6] == 0x48 && b[7] == 0x54 && b[8] == 0x54 && b[9] == 0x50 && b[10]
        == 0x2f && b[11] == 0x32 && b[12] == 0x2e && b[13] == 0x30 && b[14] == 0x0d && b[15] == 0x0a
        && b[16] == 0x0d && b[17] == 0x0a && b[18] == 0x53 && b[19] == 0x4d && b[20] == 0x0d && b[21]
        == 0x0a && b[22] == 0x0d && b[23] == 0x0a
}

/// Reads captured bytes as frames.
pub fn parse_http2_frames<'a>(b: &'a [u8]) -> (r: Option<Vec<HTTP2Frame<'a>>>)
    ensures
        match r {
            Some(frames) => frames_in(b@) == Some(frames_view(frames@)),
            None => frames_in(b@) is None,
        },
{
    let whole: &'a [u8] = if begins_with_preface(b) {
        let total: usize = b.len();
        let rest: &'a [u8] = slice_subrange(b, 24, total);
        assert(rest@ =~= b@.skip(24));
        rest
    } else {
        b
    };
    assert(whole@ == without_preface(b@));
    let mut frames: Vec<HTTP2Frame<'a>> = Vec::new();
    let mut rest: &'a [u8] = whole;
    proof {
        match whole_frames(rest@) {
            Some(more) => {
                assert(frames_view(frames@) + more =~= more);
            },
            None => {},
        }
    }
    while rest.len() >= 9
        invariant
            match whole_frames(rest@) {
                Some(more) => whole_frames(whole@) == Some(frames_view(frames@) + more),
                None => whole_frames(whole@) is None,
            },
            whole@ == without_preface(b@),
        decreases rest@.len(),
    {
        let total: usize = rest.len();
        let length: u64 = bytes::read_be(rest, 0, 3);
        assert(rest@.subrange(0, 3) =~= rest@.take(3));
        if length > (total - 9) as u64 {
            return None;
        }
        let end: usize = 9 + length as usize;
        let payload: &'a [u8] = slice_subrange(rest, 9, end);
        let stream_id: u32 = (bytes::read_be(rest, 5, 4) % 0x8000_0000) as u32;
        let frame = HTTP2Frame { frame_type: rest[3], flags: rest[4], stream_id, payload };
        let ghost current = rest@;
        let ghost before = frames@;
        assert(frame@ == first_frame(current));
        rest = slice_subrange(rest, end, total);
        assert(rest@ =~= current.skip(9 + announced_length(current) as int));
        if frame.frame_type <= 9 {
            frames.push(frame);
            proof {
                assert(frames_view(frames@) =~= frames_view(before).push(first_frame(current)));
                match whole_frames(rest@) {
                    Some(more) => {
                        assert(frames_view(frames@) + more =~= frames_view(before) + (seq![
                            first_frame(current),
                        ] + more));
                    },
                    None => {},
                }
            }
        }
    }
    if rest.len() != 0 || frames.len() == 0 {
        proof {
            match whole_frames(rest@) {
                Some(more) => {
                    assert(frames_view(frames@) + more =~= frames_view(frames@));
                },
                None => {},
            }
        }
        return None;
    }
    assert(frames_view(frames@) + Seq::<FrameModel>::empty() =~= frames_view(frames@));
    Some(frames)
}

/// The flag that a payload is padded.
pub open spec fn padded(flags: u8) -> bool {
    (flags / 8) % 2 == 1
}

/// The flag that header fields begin with a priority.
pub open spec fn prioritized(flags: u8) -> bool {
    (flags / 32) % 2 == 1
}

/// The flag that a header block ends with the frame.
pub open spec fn ends_headers(flags: u8) -> bool {
    (flags / 4) % 2 == 1
}

/// The flag that a stream ends with the frame.
pub open spec fn ends_stream(flags: u8) -> bool {
    flags % 2 == 1
}

/// A payload without `lead` bytes of its start and without its padding, whose length its first
/// byte gives where it is padded; empty where not so much is there.
pub open spec fn unpadded(flags: u8, lead: int, payload: Seq<u8>) -> Seq<u8> {
    if padded(flags) && payload.len() == 0 {
        Seq::empty()
    } else {
        let start = if padded(flags) {
            1 + lead
        } else {
            lead
        };
        let end = if padded(flags) {
            payload.len() - payload[0]
        } else {
            payload.len() as int
        };
        if start > end {
            Seq::empty()
        } else {
            payload.subrange(start, end)
        }
    }
}

/// The data of a frame of type 0.
pub open spec fn data_of(flags: u8, payload: Seq<u8>) -> Seq<u8> {
    unpadded(flags, 0, payload)
}

/// The part of a header block that a frame of type 1 holds. A priority takes five bytes.
pub open spec fn block_of(flags: u8, payload: Seq<u8>) -> Seq<u8> {
    unpadded(
        flags,
        if prioritized(flags) {
            5
        } else {
            0
        },
        payload,
    )
}

fn strip_padding<'a>(flags: u8, lead: usize, payload: &'a [u8]) -> (r: &'a [u8])
    requires
        lead <= 5,
    ensures
        r@ == unpadded(flags, lead as int, payload@),
{
    let total: usize = payload.len();
    let is_padded: bool = (flags / 8) % 2 == 1;
    let mut start: usize = lead;
    let mut end: usize = total;
    if is_padded {
        if total == 0 {
            return payload;
        }
        start = lead + 1;
        let pad: usize = payload[0] as usize;
        if pad > total {
            let r: &'a [u8] = slice_subrange(payload, 0, 0);
            assert(r@ =~= Seq::empty());
            return r;
        }
        end = total - pad;
    }
    if start > end {
        let r: &'a [u8] = slice_subrange(payload, 0, 0);
        assert(r@ =~= Seq::empty());
        return r;
    }
    slice_subrange(payload, start, end)
}

/// The data of a frame of type 0.
pub fn data_payload(flags: u8, payload: &[u8]) -> (r: &[u8])
    ensures
        r@ == data_of(flags, payload@),
{
    let r: &[u8] = strip_padding(flags, 0, payload);
    r
}

/// The part of a header block that a frame of type 1 holds.
pub fn headers_payload(flags: u8, payload: &[u8]) -> (r: &[u8])
    ensures
        r@ == block_of(flags, payload@),
{
    let lead: usize = if (flags / 32) % 2 == 1 {
        5
    } else {
        0
    };
    strip_padding(flags, lead, payload)
}

/// The bytes of a frame.
pub open spec fn frame_bytes(f: FrameModel) -> Seq<u8> {
    bytes::be_bytes(f.payload.len(), 3) + seq![f.frame_type, f.flags] + bytes::be_bytes(
        f.stream_id as nat,
        4,
    ) + f.payload
}

/// The bytes of frames, one after the other.
pub open spec fn all_frame_bytes(frames: Seq<FrameModel>) -> Seq<u8>
    decreases frames.len(),
{
    if frames.len() == 0 {
        Seq::empty()
    } else {
        frame_bytes(frames[0]) + all_frame_bytes(frames.drop_first())
    }
}

/// The frames of known types.
pub open spec fn known(frames: Seq<FrameModel>) -> Seq<FrameModel>
    decreases frames.len(),
{
    if frames.len() == 0 {
        Seq::empty()
    } else if frames[0].frame_type <= 9 {
        seq![frames[0]] + known(frames.drop_first())
    } else {
        known(frames.drop_first())
    }
}

/// A frame can be sent: its payload fits 24 bits of length, its stream number 31 bits.
pub open spec fn sendable(f: FrameModel) -> bool {
    f.payload.len() < 0x100_0000 && f.stream_id < 0x8000_0000
}

proof fn lemma_frames_are_read_back(frames: Seq<FrameModel>)
    requires
        forall|i: int| 0 <= i < frames.len() ==> sendable(#[trigger] frames[i]),
    ensures
        whole_frames(all_frame_bytes(frames)) == Some(known(frames)),
    decreases frames.len(),
{
    if frames.len() > 0 {
        let f = frames[0];
        let rest = frames.drop_first();
        assert forall|i: int| 0 <= i < rest.len() implies sendable(#[trigger] rest[i]) by {
            assert(rest[i] == frames[i + 1]);
        }
        lemma_frames_are_read_back(rest);
        assert(sendable(f));
        bytes::lemma_power_256();
        bytes::law_big_endian_gives_the_number_back(f.payload.len(), 3);
        bytes::law_big_endian_gives_the_number_back(f.stream_id as nat, 4);
        let b = all_frame_bytes(frames);
        assert(b.take(3) =~= bytes::be_bytes(f.payload.len(), 3));
        assert(announced_length(b) == f.payload.len());
        assert(b[3] == f.frame_type && b[4] == f.flags);
        assert(b.subrange(5, 9) =~= bytes::be_bytes(f.stream_id as nat, 4));
        assert(b.subrange(9, 9 + f.payload.len() as int) =~= f.payload);
        assert(b.skip(9 + f.payload.len() as int) =~= all_frame_bytes(rest));
        assert(first_frame(b) == f);
    }
}

/// Frames that are sent, after the preface or without it, are read back as they were sent; those
/// of unknown types are left out. Without the preface, the frames must not look like it.
pub proof fn law_frames_are_read_back(frames: Seq<FrameModel>, with_preface: bool)
    requires
        forall|i: int| 0 <= i < frames.len() ==> sendable(#[trigger] frames[i]),
        known(frames).len() > 0,
        with_preface || without_preface(all_frame_bytes(frames)) == all_frame_bytes(frames),
    ensures
        frames_in(
            if with_preface {
                preface() + all_frame_bytes(frames)
            } else {
                all_frame_bytes(frames)
            },
        ) == Some(known(frames)),
{
    lemma_frames_are_read_back(frames);
    let b = all_frame_bytes(frames);
    if with_preface {
        let c = preface() + b;
        assert(c.take(24) =~= preface());
        assert(c.skip(24) =~= b);
    }
}

/// Data that are sent with padding are read back without it.
pub proof fn law_padding_is_taken_off(data: Seq<u8>, padding: Seq<u8>, flags: u8)
    requires
        padding.len() <= 255,
        padded(flags),
    ensures
        data_of(flags, seq![padding.len() as u8] + data + padding) == data,
{
    let p = seq![padding.len() as u8] + data + padding;
    assert(p.subrange(1, p.len() - padding.len()) =~= data);
}

} // verus!
