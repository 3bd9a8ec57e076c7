//! Laws of HTTP/2 connections: what is kept stays bounded, and every event is given once.

use crate::event::EventModel;
use crate::http2;
use crate::http2::{
    CaptureContext, HTTP2Direction, Http2Model, StreamModel, MAX_HTTP2_HEADER_BLOCK_BYTES,
    MAX_HTTP2_PENDING_HEADERS, MAX_HTTP2_STREAMS,
};
use crate::http2_frame::FrameModel;
use crate::http_event::HttpEventModel;
use crate::json::Json;
use crate::websocket;
use crate::websocket::MAX_HTTP_BODY_BYTES;
use vstd::prelude::*;

verus! {

/// Different streams are kept under different keys.
pub proof fn law_streams_are_kept_apart(tid: u64, id: u32, other_tid: u64, other_id: u32)
    ensures
        http2::stream_key(tid, id) == http2::stream_key(other_tid, other_id) <==> tid == other_tid
            && id == other_id,
{
}

/// Bytes that come piece by piece leave the same last bytes as if they came at once.
pub proof fn law_bodies_keep_their_last_bytes(a: Seq<u8>, b: Seq<u8>, c: Seq<u8>, max: nat)
    ensures
        http2::last_bytes(http2::last_bytes(a + b, max) + c, max) == http2::last_bytes(
            a + b + c,
            max,
        ),
        http2::last_bytes(a, max).len() <= max,
        a.len() <= max ==> http2::last_bytes(a, max) == a,
{
    assert(http2::last_bytes(http2::last_bytes(a + b, max) + c, max) =~= http2::last_bytes(
        a + b + c,
        max,
    ));
}

/// A stream is kept within bounds, and only until events were given for both directions.
pub open spec fn stream_bounded(s: StreamModel) -> bool {
    &&& s.request_body.len() <= MAX_HTTP_BODY_BYTES
    &&& s.response_body.len() <= MAX_HTTP_BODY_BYTES
    &&& !s.done()
}

/// What is kept is within bounds.
pub open spec fn bounded(s: Http2Model) -> bool {
    &&& forall|k: u128| #[trigger] s.streams.contains_key(k) ==> stream_bounded(s.streams[k])
    &&& forall|k: u128| #[trigger]
        s.pending.contains_key(k) ==> s.pending[k].block.len() <= MAX_HTTP2_HEADER_BLOCK_BYTES
    &&& s.pending.len() <= MAX_HTTP2_PENDING_HEADERS
    &&& s.pending.dom().finite()
}

proof fn lemma_step_bounded(s: Http2Model, c: CaptureContext, f: FrameModel, after: Http2Model)
    requires
        bounded(s),
        s.steps_to(c, f, after),
    ensures
        bounded(after),
        s.on_frame(c, f).drops_streams ==> after.streams.len() <= MAX_HTTP2_STREAMS,
{
    let o = s.on_frame(c, f);
    let key = http2::stream_key(c.tid, f.stream_id);
    assert(o.state.pending.dom().finite());
    assert(o.drops_pending || o.state.pending.len() <= MAX_HTTP2_PENDING_HEADERS) by {
        if s.pending.contains_key(key) {
            assert(s.pending.dom().insert(key) =~= s.pending.dom());
        }
    }
    if o.drops_pending && o.state.pending.len() > MAX_HTTP2_PENDING_HEADERS {
        vstd::set_lib::lemma_len_subset(after.pending.dom(), o.state.pending.dom());
    }
    let kept = if o.drops_streams {
        o.state.without_done(key)
    } else {
        o.state.streams
    };
    assert forall|k: u128| #[trigger] kept.contains_key(k) implies stream_bounded(kept[k]) by {
        if k != key {
            assert(s.streams.contains_key(k));
        } else if s.streams.contains_key(key) {
            assert(stream_bounded(s.streams[key]));
        }
    }
    assert forall|k: u128| #[trigger] after.streams.contains_key(k) implies stream_bounded(
        after.streams[k],
    ) by {
        assert(kept.contains_key(k));
    }
    assert forall|k: u128| #[trigger] after.pending.contains_key(k) implies after.pending[k].block.len()
        <= MAX_HTTP2_HEADER_BLOCK_BYTES by {
        assert(o.state.pending.contains_key(k));
        if k != key {
            assert(s.pending.contains_key(k));
        }
    }
}

proof fn lemma_observing_bounded(
    s: Http2Model,
    tid: u64,
    direction: HTTP2Direction,
    data: Json,
    ids: Seq<u32>,
)
    requires
        bounded(s),
    ensures
        bounded(s.observing(tid, direction, data, ids)),
    decreases ids.len(),
{
    if ids.len() > 0 {
        lemma_observing_bounded(s, tid, direction, data, ids.drop_last());
        let t = s.observing(tid, direction, data, ids.drop_last());
        let after = s.observing(tid, direction, data, ids);
        let key = http2::stream_key(tid, ids.last());
        assert forall|k: u128| #[trigger] after.streams.contains_key(k) implies stream_bounded(
            after.streams[k],
        ) by {
            if k != key {
                assert(t.streams.contains_key(k));
            } else if t.streams.contains_key(key) {
                assert(stream_bounded(t.streams[key]));
            }
        }
    }
}

proof fn lemma_states_bounded(
    states: Seq<Http2Model>,
    c: CaptureContext,
    frames: Seq<FrameModel>,
    n: int,
)
    requires
        http2::follows(states, c, frames),
        bounded(states[0]),
        0 <= n <= frames.len(),
    ensures
        bounded(states[n]),
    decreases n,
{
    if n > 0 {
        lemma_states_bounded(states, c, frames, n - 1);
        assert(states[n - 1].steps_to(c, frames[n - 1], states[n - 1 + 1]));
        lemma_step_bounded(states[n - 1], c, frames[n - 1], states[n]);
    }
}

/// However many frames are captured, bodies and header blocks are kept up to their limits, no more
/// than so many header blocks wait for their end, and no stream is kept that is done.
pub proof fn law_what_is_kept_stays_bounded(
    before: Http2Model,
    event: EventModel,
    direction: HTTP2Direction,
    frames: Seq<FrameModel>,
    include_raw_data: bool,
    after: Http2Model,
    events: Seq<HttpEventModel>,
)
    requires
        bounded(before),
        http2::captures_to(before, event, direction, frames, include_raw_data, after, events),
    ensures
        bounded(Http2Model::start()),
        bounded(after),
{
    let tid = websocket::event_tid(event.data);
    let c = CaptureContext { tid, direction, include_raw_data };
    let states = choose|states: Seq<Http2Model>|
        {
            &&& #[trigger] http2::follows(states, c, frames)
            &&& states[0] == before.observing(
                tid,
                direction,
                event.data,
                http2::affected_streams(frames),
            )
            &&& states.last() == after
            &&& events == http2::events_along(states, c, frames)
        };
    lemma_observing_bounded(
        before,
        tid,
        direction,
        event.data,
        http2::affected_streams(frames),
    );
    lemma_states_bounded(states, c, frames, frames.len() as int);
}

/// After a frame there are no more than so many streams, unless the frame is one that nothing is
/// done for: one of stream 0, or the continuation of a header block that is not kept.
pub proof fn law_streams_stay_bounded(
    s: Http2Model,
    c: CaptureContext,
    f: FrameModel,
    after: Http2Model,
)
    requires
        s.steps_to(c, f, after),
        s.on_frame(c, f).drops_streams,
    ensures
        after.streams.len() <= MAX_HTTP2_STREAMS,
{
}

/// An event is given once for each direction of a stream: a frame that gives one finds none given
/// before, and leaves it given.
pub proof fn law_events_are_given_once(s: Http2Model, c: CaptureContext, f: FrameModel)
    ensures
        ({
            let o = s.on_frame(c, f);
            let key = http2::stream_key(c.tid, f.stream_id);
            &&& o.event is Some ==> {
                &&& !s.stream(key).emitted(c.direction)
                &&& o.state.stream(key).emitted(c.direction)
            }
            &&& s.stream(key).emitted(c.direction) ==> o.event is None && o.state.stream(
                key,
            ).emitted(c.direction)
        }),
{
}

/// A frame concerns its own stream only: all others are as they were, before entries are dropped.
pub proof fn law_frames_leave_other_streams_alone(
    s: Http2Model,
    c: CaptureContext,
    f: FrameModel,
    key: u128,
)
    requires
        key != http2::stream_key(c.tid, f.stream_id),
    ensures
        ({
            let o = s.on_frame(c, f);
            &&& o.state.streams.contains_key(key) == s.streams.contains_key(key)
            &&& o.state.stream(key) == s.stream(key)
            &&& o.state.pending.contains_key(key) == s.pending.contains_key(key)
            &&& s.pending.contains_key(key) ==> o.state.pending[key] == s.pending[key]
        }),
{
}

proof fn lemma_affected(frames: Seq<FrameModel>)
    ensures
        http2::affected_streams(frames).no_duplicates(),
        forall|id: u32| #[trigger]
            http2::affected_streams(frames).contains(id) <==> id != 0 && exists|i: int|
                0 <= i < frames.len() && Http2Model::concerns_stream(#[trigger] frames[i])
                    && frames[i].stream_id == id,
    decreases frames.len(),
{
    if frames.len() > 0 {
        let shorter = frames.drop_last();
        lemma_affected(shorter);
        let before = http2::affected_streams(shorter);
        let after = http2::affected_streams(frames);
        let f = frames.last();
        let n = frames.len() - 1;
        assert(frames[n] == f);
        assert forall|id: u32| #[trigger] after.contains(id) <==> id != 0 && exists|i: int|
            0 <= i < frames.len() && Http2Model::concerns_stream(#[trigger] frames[i])
                && frames[i].stream_id == id by {
            if after.contains(id) {
                let k = choose|k: int| 0 <= k < after.len() && after[k] == id;
                if k < before.len() {
                    assert(before[k] == id);
                    assert(before.contains(id));
                    let i = choose|i: int|
                        0 <= i < shorter.len() && Http2Model::concerns_stream(
                            #[trigger] shorter[i],
                        ) && shorter[i].stream_id == id;
                    assert(frames[i] == shorter[i]);
                } else {
                    assert(Http2Model::concerns_stream(frames[n]) && frames[n].stream_id == id);
                }
            }
            if id != 0 && exists|i: int|
                0 <= i < frames.len() && Http2Model::concerns_stream(#[trigger] frames[i])
                    && frames[i].stream_id == id {
                let i = choose|i: int|
                    0 <= i < frames.len() && Http2Model::concerns_stream(#[trigger] frames[i])
                        && frames[i].stream_id == id;
                if i < n {
                    assert(shorter[i] == frames[i]);
                    assert(before.contains(id));
                    let k = choose|k: int| 0 <= k < before.len() && before[k] == id;
                    assert(after[k] == id);
                } else if before.contains(id) {
                    let k = choose|k: int| 0 <= k < before.len() && before[k] == id;
                    assert(after[k] == id);
                } else {
                    assert(after[after.len() - 1] == id);
                }
            }
        }
    }
}

proof fn lemma_observing(
    s: Http2Model,
    tid: u64,
    direction: HTTP2Direction,
    data: Json,
    ids: Seq<u32>,
    id: u32,
)
    requires
        ids.no_duplicates(),
    ensures
        s.observing(tid, direction, data, ids).stream(http2::stream_key(tid, id)) == if ids.contains(
            id,
        ) {
            s.stream(http2::stream_key(tid, id)).observed(direction, data)
        } else {
            s.stream(http2::stream_key(tid, id))
        },
    decreases ids.len(),
{
    if ids.len() > 0 {
        let shorter = ids.drop_last();
        assert(shorter.no_duplicates()) by {
            assert forall|i: int, j: int| 0 <= i < shorter.len() && 0 <= j < shorter.len() && i
                != j implies shorter[i] != shorter[j] by {
                assert(ids[i] != ids[j]);
            }
        }
        lemma_observing(s, tid, direction, data, shorter, id);
        law_streams_are_kept_apart(tid, id, tid, ids.last());
        let n = ids.len() - 1;
        if id == ids.last() {
            assert(ids[n] == id);
            if shorter.contains(id) {
                let k = choose|k: int| 0 <= k < shorter.len() && shorter[k] == id;
                assert(ids[k] == id);
            }
        } else {
            if ids.contains(id) {
                let k = choose|k: int| 0 <= k < ids.len() && ids[k] == id;
                assert(shorter[k] == id);
            }
            if shorter.contains(id) {
                let k = choose|k: int| 0 <= k < shorter.len() && shorter[k] == id;
                assert(ids[k] == id);
            }
        }
    }
}

/// A capture that holds several frames of a stream is recorded once for that stream, in its
/// direction, rather than once for each frame; streams without a frame in it do not record it.
pub proof fn law_captures_are_recorded_once(
    s: Http2Model,
    tid: u64,
    direction: HTTP2Direction,
    data: Json,
    frames: Seq<FrameModel>,
    id: u32,
)
    ensures
        ({
            let concerned = id != 0 && exists|i: int|
                0 <= i < frames.len() && Http2Model::concerns_stream(#[trigger] frames[i])
                    && frames[i].stream_id == id;
            let key = http2::stream_key(tid, id);
            let after = s.observing(tid, direction, data, http2::affected_streams(frames));
            after.stream(key) == if concerned {
                s.stream(key).observed(direction, data)
            } else {
                s.stream(key)
            }
        }),
{
    lemma_affected(frames);
    lemma_observing(s, tid, direction, data, http2::affected_streams(frames), id);
}

} // verus!
