//! Laws of capture summaries, by the names of the fields that captures and summaries have.

use crate::capture_metadata;
use crate::capture_metadata::CaptureState;
use crate::json::Json;
use crate::ordered;
use crate::text;
use vstd::prelude::*;

verus! {

/// The field holds this number, as a number or as its digits.
pub open spec fn tells(v: Option<Json>, n: u64) -> bool {
    v == Some(Json::Unsigned(n)) || v == Some(Json::Text(text::decimal(n as nat)))
}

/// The field holds no number.
pub open spec fn tells_none(v: Option<Json>) -> bool {
    v is None || v == Some(Json::Null)
}

proof fn lemma_tells(v: Option<Json>, n: u64)
    ensures
        tells(v, n) ==> capture_metadata::number_of(v) == Some(n),
        tells_none(v) ==> capture_metadata::number_of(v) is None,
{
    text::law_numbers_are_read_back(n as nat, u64::MAX as nat);
}

/// A single number in order.
proof fn lemma_single(t: u64)
    ensures
        ordered::ascending(Set::empty().insert(t)) == seq![t],
        Set::<u64>::empty().insert(t).len() == 1,
        ordered::ascending(Set::empty()) == Seq::<u64>::empty(),
{
    let one = Set::<u64>::empty().insert(t);
    let q = seq![t];
    assert forall|x: u64| #[trigger] q.contains(x) <==> one.contains(x) by {
        if x == t {
            assert(q[0] == x);
        }
    }
    ordered::lemma_ascending_is(q, one);
    ordered::lemma_ascending(one);
    let none = Seq::<u64>::empty();
    assert forall|x: u64| #[trigger] none.contains(x) <==> Set::<u64>::empty().contains(x) by {}
    ordered::lemma_ascending_is(none, Set::empty());
}

/// The summary of one capture has the identity, the sequence number, the lengths, the losses, the
/// failures and the thread that the capture tells, each under its name.
pub proof fn law_summaries_say_what_a_capture_tells(data: Json, n: u64, lost: u64)
    requires
        data.field("capture_fragment_count"@) is None,
    ensures
        ({
            let m = CaptureState::empty().observe(data).summary();
            &&& m.capture_fragment_count == 1
            &&& tells(data.field("process_start_ns"@), n) ==> m.process_start_ns == Some(n)
            &&& tells_none(data.field("process_start_ns"@)) ==> m.process_start_ns is None
            &&& tells(data.field("capture_seq"@), n) ==> m.capture_seq_start == Some(n)
                && m.capture_seq_end == Some(n)
            &&& tells_none(data.field("capture_seq"@)) ==> m.capture_seq_start is None
                && m.capture_seq_end is None
            &&& tells(data.field("ringbuf_reserve_failures"@), n)
                ==> m.ringbuf_reserve_failures_start == Some(n) && m.ringbuf_reserve_failures_end
                == Some(n) && m.ringbuf_reserve_failures_delta == Some(0u64)
            &&& tells_none(data.field("ringbuf_reserve_failures"@))
                ==> m.ringbuf_reserve_failures_start is None && m.ringbuf_reserve_failures_end is None
                && m.ringbuf_reserve_failures_delta is None
            &&& m.capture_truncated == (match data.field("truncated"@) {
                Some(Json::Bool(b)) => Some(b),
                _ => None,
            })
            &&& data.field("truncated"@) == Some(Json::Bool(true)) && tells(
                data.field("bytes_lost"@),
                lost,
            ) ==> m.capture_bytes_lost == Some(lost)
            &&& data.field("truncated"@) == Some(Json::Bool(true)) && tells_none(
                data.field("bytes_lost"@),
            ) ==> m.capture_bytes_lost is None
            &&& data.field("truncated"@) == Some(Json::Bool(false)) ==> m.capture_bytes_lost
                == Some(0u64)
            &&& data.field("truncated"@) is None ==> m.capture_bytes_lost is None
            &&& m.capture_identity_consistent
        }),
{
    lemma_tells(data.field("process_start_ns"@), n);
    lemma_tells(data.field("capture_seq"@), n);
    lemma_tells(data.field("ringbuf_reserve_failures"@), n);
    lemma_tells(data.field("bytes_lost"@), lost);
}

/// The lengths of one capture are those under `len` and `buf_size`, both or neither.
pub proof fn law_lengths_of_a_capture(data: Json, original: u64, captured: u64)
    requires
        data.field("capture_fragment_count"@) is None,
    ensures
        ({
            let m = CaptureState::empty().observe(data).summary();
            let o = data.field("len"@);
            let c = data.field("buf_size"@);
            &&& tells(o, original) && tells(c, captured) ==> m.capture_original_len == Some(
                original,
            ) && m.capture_captured_len == Some(captured)
            &&& tells_none(o) || tells_none(c) ==> m.capture_original_len is None
                && m.capture_captured_len is None
        }),
{
    lemma_tells(data.field("len"@), original);
    lemma_tells(data.field("buf_size"@), captured);
}

/// The names of one capture are texts, or numbers in their digits.
pub proof fn law_names_of_a_capture(data: Json)
    requires
        data.field("capture_fragment_count"@) is None,
    ensures
        ({
            let m = CaptureState::empty().observe(data).summary();
            &&& match data.field("transport_handle"@) {
                Some(Json::Text(s)) => m.transport_handle == Some(s),
                Some(Json::Unsigned(n)) => m.transport_handle == Some(text::decimal(n as nat)),
                Some(Json::Negative(n)) => n < 0 ==> m.transport_handle == Some(
                    "-"@ + text::decimal((-n) as nat),
                ),
                Some(Json::Float(s)) => m.transport_handle == Some(s),
                None => m.transport_handle is None,
                _ => true,
            }
            &&& match data.field("tls_library"@) {
                Some(Json::Text(s)) => m.tls_library == Some(s),
                Some(Json::Unsigned(n)) => m.tls_library == Some(text::decimal(n as nat)),
                Some(Json::Negative(n)) => n < 0 ==> m.tls_library == Some(
                    "-"@ + text::decimal((-n) as nat),
                ),
                Some(Json::Float(s)) => m.tls_library == Some(s),
                None => m.tls_library is None,
                _ => true,
            }
        }),
{
    reveal_strlit("-");
    assert("-"@ =~= seq!['-']);
}

/// The thread of one capture is listed and counted.
pub proof fn law_the_thread_of_a_capture(data: Json, tid: u64)
    requires
        data.field("capture_fragment_count"@) is None,
    ensures
        ({
            let m = CaptureState::empty().observe(data).summary();
            &&& tells(data.field("tid"@), tid) ==> m.capture_tids == seq![tid]
                && m.capture_tid_count == 1
            &&& tells_none(data.field("tid"@)) ==> m.capture_tids.len() == 0
                && m.capture_tid_count == 0
            &&& !m.capture_tids_truncated
        }),
{
    lemma_tells(data.field("tid"@), tid);
    match capture_metadata::number_of(data.field("tid"@)) {
        Some(t) => {
            lemma_single(t);
        },
        None => {
            lemma_single(tid);
        },
    }
}

/// What was known of the threads is known after one capture more, and its thread too; what was
/// known of the rest stays part of it.
pub proof fn law_captures_add_up(s: CaptureState, data: Json, n: u64, o: u64, c: u64)
    requires
        data.field("capture_fragment_count"@) is None,
        s.fragment_count > 0,
    ensures
        ({
            let after = s.observe(data);
            &&& s.fragment_count < u64::MAX ==> after.summary().capture_fragment_count
                == s.summary().capture_fragment_count + 1
            &&& tells(data.field("tid"@), n) ==> forall|t: u64| #[trigger]
                after.tids.contains(t) == (s.tids.contains(t) || t == n)
            &&& tells_none(data.field("tid"@)) ==> after.tids == s.tids
            &&& tells(data.field("len"@), o) && tells(data.field("buf_size"@), c)
                && s.summary().capture_original_len is Some && s.summary().capture_captured_len is Some
                && s.summary().capture_original_len->0 + o <= u64::MAX
                && s.summary().capture_captured_len->0 + c <= u64::MAX
                ==> after.summary().capture_original_len->0 == s.summary().capture_original_len->0
                + o && after.summary().capture_captured_len->0
                == s.summary().capture_captured_len->0 + c
            &&& tells(data.field("capture_seq"@), n) && s.summary().capture_seq_start is Some
                && s.summary().capture_seq_end is Some
                ==> after.summary().capture_seq_start->0 == (if n
                < s.summary().capture_seq_start->0 {
                n
            } else {
                s.summary().capture_seq_start->0
            }) && after.summary().capture_seq_end->0 == (if n > s.summary().capture_seq_end->0 {
                n
            } else {
                s.summary().capture_seq_end->0
            })
            &&& data.field("truncated"@) == Some(Json::Bool(true)) && tells(
                data.field("bytes_lost"@),
                n,
            ) && s.summary().capture_bytes_lost is Some && s.summary().capture_bytes_lost->0 + n
                <= u64::MAX ==> after.summary().capture_bytes_lost->0
                == s.summary().capture_bytes_lost->0 + n
            &&& data.field("truncated"@) == Some(Json::Bool(true))
                ==> after.summary().capture_truncated == Some(true)
            &&& data.field("truncated"@) == Some(Json::Bool(false))
                ==> after.summary().capture_truncated == s.summary().capture_truncated
            &&& after.summary().ringbuf_reserve_failures_start
                == s.summary().ringbuf_reserve_failures_start
            &&& tells(data.field("ringbuf_reserve_failures"@), n)
                ==> after.summary().ringbuf_reserve_failures_end == Some(n)
        }),
{
    lemma_tells(data.field("tid"@), n);
    lemma_tells(data.field("len"@), o);
    lemma_tells(data.field("buf_size"@), c);
    lemma_tells(data.field("capture_seq"@), n);
    lemma_tells(data.field("bytes_lost"@), n);
    lemma_tells(data.field("ringbuf_reserve_failures"@), n);
}

/// The failures in between are those at the end less those at the start, and none where there
/// were not more at the end.
pub proof fn law_failures_in_between(s: CaptureState, first: u64, last: u64)
    requires
        s.summary().ringbuf_reserve_failures_start == Some(first),
        s.summary().ringbuf_reserve_failures_end == Some(last),
    ensures
        first <= last ==> s.summary().ringbuf_reserve_failures_delta is Some && first
            + s.summary().ringbuf_reserve_failures_delta->0 == last,
        first > last ==> s.summary().ringbuf_reserve_failures_delta == Some(0u64),
{
}

/// A summary lists 64 threads at most.
pub proof fn law_summaries_list_few_threads(s: CaptureState)
    requires
        s.tids.len() + s.unlisted_tid_count <= u64::MAX,
    ensures
        s.summary().capture_tids.len() <= 64,
        s.tids.len() <= 64 ==> s.summary().capture_tids.len() == s.tids.len(),
        s.tids.len() > 64 ==> s.summary().capture_tids.len() == 64
            && s.summary().capture_tids_truncated,
        s.summary().capture_tid_count == s.tids.len() + s.unlisted_tid_count,
{
    ordered::lemma_ascending(s.tids);
}

/// A capture is completely described exactly if each of these fields tells what it should.
pub proof fn law_complete_captures(data: Json)
    requires
        data.field("capture_fragment_count"@) is None,
        data.field("transport_handle"@) is None || data.field("transport_handle"@)->0 is Text
            || data.field("transport_handle"@)->0 is Unsigned,
        data.field("tls_library"@) is None || data.field("tls_library"@)->0 is Text,
        data.field("process_start_ns"@) is None || data.field("process_start_ns"@)->0 is Unsigned,
        data.field("capture_seq"@) is None || data.field("capture_seq"@)->0 is Unsigned,
        data.field("len"@) is None || data.field("len"@)->0 is Unsigned,
        data.field("buf_size"@) is None || data.field("buf_size"@)->0 is Unsigned,
        data.field("truncated"@) is None || data.field("truncated"@)->0 is Bool,
        data.field("bytes_lost"@) is None || data.field("bytes_lost"@)->0 is Unsigned,
        data.field("ringbuf_reserve_failures"@) is None || data.field(
            "ringbuf_reserve_failures"@,
        )->0 is Unsigned,
        data.field("tid"@) is None || data.field("tid"@)->0 is Unsigned,
    ensures
        CaptureState::empty().observe(data).summary().capture_metadata_complete == ({
            &&& data.field("transport_handle"@) is Some
            &&& data.field("tls_library"@) is Some
            &&& data.field("process_start_ns"@) is Some
            &&& data.field("capture_seq"@) is Some
            &&& data.field("len"@) is Some
            &&& data.field("buf_size"@) is Some
            &&& data.field("truncated"@) is Some
            &&& data.field("truncated"@) == Some(Json::Bool(false)) || data.field(
                "bytes_lost"@,
            ) is Some
            &&& data.field("ringbuf_reserve_failures"@) is Some
            &&& data.field("tid"@) is Some
        }),
{
}

/// The summary of a summary has what the summary tells, each under its name.
pub proof fn law_summaries_say_what_a_summary_tells(
    data: Json,
    count: u64,
    a: u64,
    b: u64,
)
    requires
        tells(data.field("capture_fragment_count"@), count),
    ensures
        ({
            let m = CaptureState::empty().observe(data).summary();
            let one = data.field("capture_identity_consistent"@) == Some(Json::Bool(true));
            &&& m.capture_fragment_count == count
            &&& m.capture_identity_consistent == one
            &&& one && tells(data.field("process_start_ns"@), a) ==> m.process_start_ns == Some(a)
            &&& !one ==> m.process_start_ns is None && m.transport_handle is None
                && m.tls_library is None
            &&& match data.field("transport_handle"@) {
                Some(Json::Text(t)) => one ==> m.transport_handle == Some(t),
                _ => true,
            }
            &&& match data.field("tls_library"@) {
                Some(Json::Text(t)) => one ==> m.tls_library == Some(t),
                _ => true,
            }
            &&& tells(data.field("capture_seq_start"@), a) && tells(
                data.field("capture_seq_end"@),
                b,
            ) ==> m.capture_seq_start == Some(a) && m.capture_seq_end == Some(b)
            &&& tells(data.field("capture_original_len"@), a) && tells(
                data.field("capture_captured_len"@),
                b,
            ) ==> m.capture_original_len == Some(a) && m.capture_captured_len == Some(b)
            &&& tells(data.field("ringbuf_reserve_failures_start"@), a) && tells(
                data.field("ringbuf_reserve_failures_end"@),
                b,
            ) ==> m.ringbuf_reserve_failures_start == Some(a) && m.ringbuf_reserve_failures_end
                == Some(b)
            &&& m.capture_truncated == (match data.field("capture_truncated"@) {
                Some(Json::Bool(t)) => Some(t),
                _ => None,
            })
            &&& data.field("capture_truncated"@) == Some(Json::Bool(true)) && tells(
                data.field("capture_bytes_lost"@),
                a,
            ) ==> m.capture_bytes_lost == Some(a)
            &&& data.field("capture_tids_truncated"@) == Some(Json::Bool(true))
                ==> m.capture_tids_truncated
            &&& m.capture_metadata_complete ==> data.field("capture_metadata_complete"@) == Some(
                Json::Bool(true),
            )
        }),
{
    lemma_tells(data.field("capture_fragment_count"@), count);
    lemma_tells(data.field("process_start_ns"@), a);
    lemma_tells(data.field("capture_seq_start"@), a);
    lemma_tells(data.field("capture_seq_end"@), b);
    lemma_tells(data.field("capture_original_len"@), a);
    lemma_tells(data.field("capture_captured_len"@), b);
    lemma_tells(data.field("ringbuf_reserve_failures_start"@), a);
    lemma_tells(data.field("ringbuf_reserve_failures_end"@), b);
    lemma_tells(data.field("capture_bytes_lost"@), a);
}

/// Threads that a summary counts but does not list are counted on: of all summaries the one with
/// most of them counts.
pub proof fn law_unlisted_threads_are_counted(
    s: CaptureState,
    data: Json,
    count: u64,
    tids: u64,
    listed: Seq<Json>,
    i: int,
)
    requires
        tells(data.field("capture_fragment_count"@), count),
        data.field("capture_tids"@) == Some(Json::List(listed)),
        forall|k: int| 0 <= k < listed.len() ==> #[trigger] listed[k] is Unsigned,
        tells(data.field("capture_tid_count"@), tids),
        listed.len() <= tids,
        0 <= i < listed.len(),
    ensures
        ({
            let after = s.observe(data);
            let missing = tids - listed.len();
            &&& after.unlisted_tid_count == if missing > s.unlisted_tid_count {
                missing
            } else {
                s.unlisted_tid_count as int
            }
            &&& after.tids.contains(listed[i]->Unsigned_0)
            &&& forall|t: u64| #[trigger] s.tids.contains(t) ==> after.tids.contains(t)
        }),
{
    lemma_tells(data.field("capture_fragment_count"@), count);
    lemma_tells(data.field("capture_tid_count"@), tids);
    lemma_listed(listed);
    let numbers = capture_metadata::numbers_in(listed);
    assert(numbers[i] == listed[i]->Unsigned_0);
    assert(numbers.to_set().contains(numbers[i]));
}

proof fn lemma_listed(listed: Seq<Json>)
    requires
        forall|k: int| 0 <= k < listed.len() ==> #[trigger] listed[k] is Unsigned,
    ensures
        capture_metadata::numbers_in(listed).len() == listed.len(),
        forall|k: int|
            0 <= k < listed.len() ==> #[trigger] capture_metadata::numbers_in(listed)[k]
                == listed[k]->Unsigned_0,
    decreases listed.len(),
{
    if listed.len() > 0 {
        let fewer = listed.drop_last();
        assert forall|k: int| 0 <= k < fewer.len() implies #[trigger] fewer[k] is Unsigned by {
            assert(fewer[k] == listed[k]);
        }
        lemma_listed(fewer);
        assert(listed[listed.len() - 1] is Unsigned);
        assert forall|k: int| 0 <= k < listed.len() implies
            #[trigger] capture_metadata::numbers_in(listed)[k] == listed[k]->Unsigned_0 by {
            if k < fewer.len() {
                assert(capture_metadata::numbers_in(fewer)[k] == fewer[k]->Unsigned_0);
            }
        }
    }
}

} // verus!
