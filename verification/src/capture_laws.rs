//! Laws of provenance summaries: what a sequence of observations adds up to.

use crate::capture_metadata;
use crate::capture_metadata::{CaptureState, CaptureSummary, MAX_CAPTURE_TIDS};
use crate::json::Json;
use crate::ordered;
use vstd::prelude::*;

verus! {

/// The state after observing events with these data, in order.
pub open spec fn observe_all(data: Seq<Json>) -> CaptureState
    decreases data.len(),
{
    if data.len() == 0 {
        CaptureState::empty()
    } else {
        observe_all(data.drop_last()).observe(data.last())
    }
}

/// All events are captures themselves.
pub open spec fn all_fragments(data: Seq<Json>) -> bool {
    forall|i: int|
        0 <= i < data.len() ==> (#[trigger] data[i]).field("capture_fragment_count"@) is None
}

/// What a capture says of the lengths: the original one and the captured one.
pub open spec fn lengths(data: Json) -> (Option<u64>, Option<u64>) {
    (capture_metadata::fragment_in(data).original_len, capture_metadata::fragment_in(data).captured_len)
}

/// Every capture says both lengths.
pub open spec fn all_lengths(data: Seq<Json>) -> bool {
    forall|i: int|
        0 <= i < data.len() ==> lengths(#[trigger] data[i]).0 is Some && lengths(data[i]).1 is Some
}

pub open spec fn original_total(data: Seq<Json>) -> nat
    decreases data.len(),
{
    if data.len() == 0 {
        0
    } else {
        original_total(data.drop_last()) + match lengths(data.last()).0 {
            Some(n) => n as nat,
            None => 0,
        }
    }
}

pub open spec fn captured_total(data: Seq<Json>) -> nat
    decreases data.len(),
{
    if data.len() == 0 {
        0
    } else {
        captured_total(data.drop_last()) + match lengths(data.last()).1 {
            Some(n) => n as nat,
            None => 0,
        }
    }
}

/// Captures are counted one by one.
pub proof fn law_every_fragment_is_counted(data: Seq<Json>)
    requires
        all_fragments(data),
    ensures
        observe_all(data).summary().capture_fragment_count == if data.len() > u64::MAX {
            u64::MAX as nat
        } else {
            data.len()
        },
    decreases data.len(),
{
    if data.len() > 0 {
        assert(all_fragments(data.drop_last())) by {
            assert forall|i: int| 0 <= i < data.drop_last().len() implies (
            #[trigger] data.drop_last()[i]).field("capture_fragment_count"@) is None by {
                assert(data.drop_last()[i] == data[i]);
            }
        }
        law_every_fragment_is_counted(data.drop_last());
        assert(data.last() == data[data.len() - 1]);
    }
}

pub(crate) proof fn lemma_prefix_fragments(data: Seq<Json>)
    requires
        all_fragments(data),
        data.len() > 0,
    ensures
        all_fragments(data.drop_last()),
        data.last().field("capture_fragment_count"@) is None,
        observe_all(data) == observe_all(data.drop_last()).observe_fragment(
            capture_metadata::fragment_in(data.last()),
        ),
        data.len() > 1 ==> observe_all(data.drop_last()).fragment_count > 0,
{
    assert forall|i: int| 0 <= i < data.drop_last().len() implies (
    #[trigger] data.drop_last()[i]).field("capture_fragment_count"@) is None by {
        assert(data.drop_last()[i] == data[i]);
    }
    assert(data.last() == data[data.len() - 1]);
    law_every_fragment_is_counted(data.drop_last());
}

pub(crate) proof fn lemma_lengths(data: Seq<Json>)
    requires
        all_fragments(data),
        data.len() > 0,
    ensures
        ({
            let s = observe_all(data);
            let fits = all_lengths(data) && original_total(data) <= u64::MAX && captured_total(data)
                <= u64::MAX;
            &&& s.lengths_complete == fits
            &&& fits ==> s.original_len == Some(original_total(data) as u64) && s.captured_len
                == Some(captured_total(data) as u64)
        }),
    decreases data.len(),
{
    let before = data.drop_last();
    lemma_prefix_fragments(data);
    assert(data.last() == data[data.len() - 1]);
    if data.len() > 1 {
        lemma_lengths(before);
    }
    assert(all_lengths(data) ==> all_lengths(before)) by {
        if all_lengths(data) {
            assert forall|i: int| 0 <= i < before.len() implies lengths(#[trigger] before[i]).0 is Some
                && lengths(before[i]).1 is Some by {
                assert(before[i] == data[i]);
            }
        }
    }
    assert(all_lengths(before) && lengths(data.last()).0 is Some && lengths(data.last()).1 is Some
        ==> all_lengths(data)) by {
        if all_lengths(before) && lengths(data.last()).0 is Some && lengths(data.last()).1 is Some {
            assert forall|i: int| 0 <= i < data.len() implies lengths(#[trigger] data[i]).0 is Some
                && lengths(data[i]).1 is Some by {
                if i < before.len() {
                    assert(before[i] == data[i]);
                }
            }
        }
    }
}

/// The lengths of a summary are the totals over all captures, where every capture says both and
/// 64 bits hold both totals; otherwise they are not given at all. A partial total is never given.
pub proof fn law_lengths_are_totals_or_absent(data: Seq<Json>)
    requires
        all_fragments(data),
        data.len() > 0,
    ensures
        ({
            let m = observe_all(data).summary();
            let fits = all_lengths(data) && original_total(data) <= u64::MAX && captured_total(data)
                <= u64::MAX;
            &&& m.capture_original_len == if fits {
                Some(original_total(data) as u64)
            } else {
                None
            }
            &&& m.capture_captured_len == if fits {
                Some(captured_total(data) as u64)
            } else {
                None
            }
        }),
{
    lemma_lengths(data);
}

/// The sequence number of a capture.
pub open spec fn seq_number(data: Json) -> Option<u64> {
    capture_metadata::fragment_in(data).seq
}

pub(crate) proof fn lemma_seq_range(data: Seq<Json>)
    requires
        all_fragments(data),
        data.len() > 0,
    ensures
        ({
            let s = observe_all(data);
            let all = forall|i: int|
                0 <= i < data.len() ==> seq_number(#[trigger] data[i]) is Some;
            &&& s.seq_complete == all
            &&& s.seq_start is Some == s.seq_end is Some
            &&& s.seq_start is None ==> forall|i: int|
                0 <= i < data.len() ==> seq_number(#[trigger] data[i]) is None
            &&& s.seq_start is Some ==> {
                &&& forall|i: int|
                    0 <= i < data.len() && seq_number(#[trigger] data[i]) is Some
                        ==> s.seq_start->0 <= seq_number(data[i])->0 <= s.seq_end->0
                &&& exists|i: int|
                    0 <= i < data.len() && seq_number(#[trigger] data[i]) == s.seq_start
                &&& exists|i: int|
                    0 <= i < data.len() && seq_number(#[trigger] data[i]) == s.seq_end
            }
        }),
    decreases data.len(),
{
    let before = data.drop_last();
    let n = data.len() as int;
    lemma_prefix_fragments(data);
    assert(data.last() == data[n - 1]);
    assert(forall|i: int| 0 <= i < n - 1 ==> #[trigger] before[i] == data[i]);
    assert(forall|i: int| 0 <= i < n - 1 ==> #[trigger] data[i] == before[i]);
    let s = observe_all(data);
    let t = observe_all(before);
    let last = seq_number(data[n - 1]);
    if n > 1 {
        lemma_seq_range(before);
        if t.seq_start is Some {
            let lo = choose|i: int|
                0 <= i < before.len() && seq_number(#[trigger] before[i]) == t.seq_start;
            let hi = choose|i: int|
                0 <= i < before.len() && seq_number(#[trigger] before[i]) == t.seq_end;
            assert(seq_number(data[lo]) == t.seq_start);
            assert(seq_number(data[hi]) == t.seq_end);
        }
    }
    if last is Some {
        assert(seq_number(data[n - 1]) is Some);
    }
}

/// The sequence range of a summary is the least and the greatest sequence number of the captures;
/// it is given exactly if every capture has one.
pub proof fn law_sequence_range_is_tight(data: Seq<Json>)
    requires
        all_fragments(data),
        data.len() > 0,
    ensures
        ({
            let m = observe_all(data).summary();
            let all = forall|i: int|
                0 <= i < data.len() ==> seq_number(#[trigger] data[i]) is Some;
            &&& all == m.capture_seq_start is Some
            &&& all == m.capture_seq_end is Some
            &&& all ==> {
                &&& forall|i: int|
                    0 <= i < data.len() ==> m.capture_seq_start->0 <= seq_number(
                        #[trigger] data[i],
                    )->0 <= m.capture_seq_end->0
                &&& exists|i: int|
                    0 <= i < data.len() && seq_number(#[trigger] data[i]) == m.capture_seq_start
                &&& exists|i: int|
                    0 <= i < data.len() && seq_number(#[trigger] data[i]) == m.capture_seq_end
            }
        }),
{
    lemma_seq_range(data);
    assert(seq_number(data[0]) is Some || seq_number(data[0]) is None);
}

proof fn lemma_conflict(s: CaptureState, data: Json)
    ensures
        s.transport_handle.conflicted ==> s.observe(data).transport_handle.conflicted,
        s.process_start_ns.conflicted ==> s.observe(data).process_start_ns.conflicted,
        s.tls_library.conflicted ==> s.observe(data).tls_library.conflicted,
{
    if data.field("capture_fragment_count"@) is Some {
        lemma_conflict_summary(s, capture_metadata::report_in(data));
    } else {
        lemma_conflict_fragment(s, capture_metadata::fragment_in(data));
    }
}

proof fn lemma_conflict_summary(s: CaptureState, r: capture_metadata::Report)
    ensures
        s.transport_handle.conflicted ==> s.observe_summary(r).transport_handle.conflicted,
        s.process_start_ns.conflicted ==> s.observe_summary(r).process_start_ns.conflicted,
        s.tls_library.conflicted ==> s.observe_summary(r).tls_library.conflicted,
{
}

proof fn lemma_conflict_fragment(s: CaptureState, f: capture_metadata::Fragment)
    ensures
        s.transport_handle.conflicted ==> s.observe_fragment(f).transport_handle.conflicted,
        s.process_start_ns.conflicted ==> s.observe_fragment(f).process_start_ns.conflicted,
        s.tls_library.conflicted ==> s.observe_fragment(f).tls_library.conflicted,
{
}

/// What contradicts an earlier observation is never forgotten: once the identity is in conflict,
/// it stays so whatever is observed next, and the summary names no identity at all.
pub proof fn law_conflict_never_heals(s: CaptureState, data: Json)
    requires
        s.transport_handle.conflicted || s.process_start_ns.conflicted || s.tls_library.conflicted,
    ensures
        ({
            let m = s.observe(data).summary();
            &&& !m.capture_identity_consistent
            &&& m.transport_handle is None
            &&& m.process_start_ns is None
            &&& m.tls_library is None
        }),
{
    lemma_conflict(s, data);
}

/// Two captures tell of different processes: some part of the identity that both give differs.
pub open spec fn contradict(a: Json, b: Json) -> bool {
    let x = capture_metadata::fragment_in(a);
    let y = capture_metadata::fragment_in(b);
    ||| x.transport_handle is Some && y.transport_handle is Some && x.transport_handle
        != y.transport_handle
    ||| x.process_start_ns is Some && y.process_start_ns is Some && x.process_start_ns
        != y.process_start_ns
    ||| x.tls_library is Some && y.tls_library is Some && x.tls_library != y.tls_library
}

/// The first value given is kept, and there is a conflict exactly if another one was given.
pub open spec fn agrees<T>(held: capture_metadata::Consistent<T>, given: Seq<Option<T>>) -> bool {
    &&& held.value is None ==> !held.conflicted && forall|i: int|
        0 <= i < given.len() ==> #[trigger] given[i] is None
    &&& held.value is Some ==> {
        &&& exists|i: int| 0 <= i < given.len() && #[trigger] given[i] == held.value
        &&& held.conflicted == exists|i: int|
            0 <= i < given.len() && #[trigger] given[i] is Some && given[i] != held.value
    }
}

proof fn lemma_agrees<T>(
    held: capture_metadata::Consistent<T>,
    given: Seq<Option<T>>,
    next: Option<T>,
)
    requires
        agrees(held, given),
    ensures
        agrees(held.observe(next), given.push(next)),
{
    let more = given.push(next);
    let after = held.observe(next);
    let n = given.len() as int;
    assert(more[n] == next);
    assert forall|i: int| 0 <= i < n implies #[trigger] more[i] == given[i] by {}
    if held.value is Some {
        let k = choose|i: int| 0 <= i < given.len() && #[trigger] given[i] == held.value;
        assert(more[k] == held.value);
        if held.conflicted {
            let j = choose|i: int|
                0 <= i < given.len() && #[trigger] given[i] is Some && given[i] != held.value;
            assert(more[j] is Some && more[j] != held.value);
        }
        if exists|i: int| 0 <= i < more.len() && #[trigger] more[i] is Some && more[i] != held.value {
            let j = choose|i: int|
                0 <= i < more.len() && #[trigger] more[i] is Some && more[i] != held.value;
            if j < n {
                assert(given[j] is Some && given[j] != held.value);
            }
        }
    } else if next is Some {
        assert(more[n] == after.value);
        assert forall|i: int| 0 <= i < more.len() && #[trigger] more[i] is Some implies more[i]
            == after.value by {
            if i < n {
                assert(given[i] is None);
            }
        }
    }
}

pub open spec fn handles(data: Seq<Json>) -> Seq<Option<Seq<char>>> {
    Seq::new(data.len(), |i: int| capture_metadata::fragment_in(data[i]).transport_handle)
}

pub open spec fn start_times(data: Seq<Json>) -> Seq<Option<u64>> {
    Seq::new(data.len(), |i: int| capture_metadata::fragment_in(data[i]).process_start_ns)
}

pub open spec fn libraries(data: Seq<Json>) -> Seq<Option<Seq<char>>> {
    Seq::new(data.len(), |i: int| capture_metadata::fragment_in(data[i]).tls_library)
}

pub(crate) proof fn lemma_identity(data: Seq<Json>)
    requires
        all_fragments(data),
    ensures
        ({
            let s = observe_all(data);
            &&& agrees(s.transport_handle, handles(data))
            &&& agrees(s.process_start_ns, start_times(data))
            &&& agrees(s.tls_library, libraries(data))
            &&& data.len() > 0 ==> s.identity_consistent
        }),
    decreases data.len(),
{
    if data.len() > 0 {
        let before = data.drop_last();
        lemma_prefix_fragments(data);
        lemma_identity(before);
        let f = capture_metadata::fragment_in(data.last());
        let s = observe_all(before);
        assert(handles(data) =~= handles(before).push(f.transport_handle));
        assert(start_times(data) =~= start_times(before).push(f.process_start_ns));
        assert(libraries(data) =~= libraries(before).push(f.tls_library));
        lemma_agrees(s.transport_handle, handles(before), f.transport_handle);
        lemma_agrees(s.process_start_ns, start_times(before), f.process_start_ns);
        lemma_agrees(s.tls_library, libraries(before), f.tls_library);
    }
}

/// A summary is consistent exactly if no two captures contradict each other. Where two do, it
/// names no transport handle, no process start and no library.
pub proof fn law_contradictions_clear_the_identity(data: Seq<Json>)
    requires
        all_fragments(data),
        data.len() > 0,
    ensures
        ({
            let m = observe_all(data).summary();
            let conflict = exists|i: int, j: int|
                0 <= i < data.len() && 0 <= j < data.len() && contradict(
                    #[trigger] data[i],
                    #[trigger] data[j],
                );
            &&& m.capture_identity_consistent == !conflict
            &&& conflict ==> m.transport_handle is None && m.process_start_ns is None
                && m.tls_library is None
        }),
{
    let s = observe_all(data);
    let m = s.summary();
    lemma_identity(data);
    let conflict = exists|i: int, j: int|
        0 <= i < data.len() && 0 <= j < data.len() && contradict(
            #[trigger] data[i],
            #[trigger] data[j],
        );
    if s.transport_handle.conflicted {
        let h = handles(data);
        let i = choose|i: int| 0 <= i < h.len() && #[trigger] h[i] == s.transport_handle.value;
        let j = choose|j: int|
            0 <= j < h.len() && #[trigger] h[j] is Some && h[j] != s.transport_handle.value;
        assert(contradict(data[i], data[j]));
    }
    if s.process_start_ns.conflicted {
        let h = start_times(data);
        let i = choose|i: int| 0 <= i < h.len() && #[trigger] h[i] == s.process_start_ns.value;
        let j = choose|j: int|
            0 <= j < h.len() && #[trigger] h[j] is Some && h[j] != s.process_start_ns.value;
        assert(contradict(data[i], data[j]));
    }
    if s.tls_library.conflicted {
        let h = libraries(data);
        let i = choose|i: int| 0 <= i < h.len() && #[trigger] h[i] == s.tls_library.value;
        let j = choose|j: int|
            0 <= j < h.len() && #[trigger] h[j] is Some && h[j] != s.tls_library.value;
        assert(contradict(data[i], data[j]));
    }
    if conflict {
        let (i, j) = choose|i: int, j: int|
            0 <= i < data.len() && 0 <= j < data.len() && contradict(
                #[trigger] data[i],
                #[trigger] data[j],
            );
        assert(handles(data)[i] == capture_metadata::fragment_in(data[i]).transport_handle);
        assert(handles(data)[j] == capture_metadata::fragment_in(data[j]).transport_handle);
        assert(start_times(data)[i] == capture_metadata::fragment_in(data[i]).process_start_ns);
        assert(start_times(data)[j] == capture_metadata::fragment_in(data[j]).process_start_ns);
        assert(libraries(data)[i] == capture_metadata::fragment_in(data[i]).tls_library);
        assert(libraries(data)[j] == capture_metadata::fragment_in(data[j]).tls_library);
    }
}

/// The threads that captures name.
pub open spec fn tids_of(data: Seq<Json>) -> Set<u64> {
    Set::new(
        |t: u64|
            exists|i: int|
                0 <= i < data.len() && capture_metadata::fragment_in(#[trigger] data[i]).tid
                    == Some(t),
    )
}

pub(crate) proof fn lemma_tids(data: Seq<Json>)
    requires
        all_fragments(data),
    ensures
        observe_all(data).tids =~= tids_of(data),
        observe_all(data).tids.finite(),
        observe_all(data).tids.len() <= data.len(),
        observe_all(data).unlisted_tid_count == 0,
        !observe_all(data).tids_truncated,
    decreases data.len(),
{
    if data.len() > 0 {
        let before = data.drop_last();
        lemma_prefix_fragments(data);
        lemma_tids(before);
        let n = data.len() as int;
        assert(data.last() == data[n - 1]);
        let s = observe_all(data);
        assert forall|t: u64| #[trigger] s.tids.contains(t) <==> tids_of(data).contains(t) by {
            if s.tids.contains(t) {
                if tids_of(before).contains(t) {
                    let i = choose|i: int|
                        0 <= i < before.len() && capture_metadata::fragment_in(
                            #[trigger] before[i],
                        ).tid == Some(t);
                    assert(data[i] == before[i]);
                } else {
                    assert(capture_metadata::fragment_in(data[n - 1]).tid == Some(t));
                }
            }
            if tids_of(data).contains(t) {
                let i = choose|i: int|
                    0 <= i < data.len() && capture_metadata::fragment_in(#[trigger] data[i]).tid
                        == Some(t);
                if i < n - 1 {
                    assert(before[i] == data[i]);
                    assert(tids_of(before).contains(t));
                }
            }
        }
    }
}

/// Whatever was observed, a summary lists the least of the threads that it was told of, in
/// ascending order and no more than [`MAX_CAPTURE_TIDS`]. It counts no fewer than it lists, and
/// where it counts more it says that the list leaves some out. The number of threads must fit 64
/// bits, which it does in every accumulator.
pub proof fn law_listed_threads_are_the_least(s: CaptureState)
    requires
        s.tids.len() <= u64::MAX,
    ensures
        ({
            let m = s.summary();
            &&& s.tids.finite()
            &&& m.capture_tids.len() == if s.tids.len() > MAX_CAPTURE_TIDS {
                MAX_CAPTURE_TIDS as nat
            } else {
                s.tids.len()
            }
            &&& ordered::strictly_ascending(m.capture_tids)
            &&& forall|t: u64| #[trigger] m.capture_tids.contains(t) ==> s.tids.contains(t)
            &&& forall|i: int, t: u64|
                0 <= i < m.capture_tids.len() && #[trigger] s.tids.contains(t)
                    && !m.capture_tids.contains(t) ==> #[trigger] m.capture_tids[i] < t
            &&& m.capture_tid_count >= s.tids.len()
            &&& m.capture_tid_count >= m.capture_tids.len()
            &&& m.capture_tid_count > m.capture_tids.len() ==> m.capture_tids_truncated
        }),
{
    let listed = s.summary().capture_tids;
    let all = ordered::ascending(s.tids);
    ordered::lemma_ascending(s.tids);
    assert forall|t: u64| #[trigger] listed.contains(t) implies s.tids.contains(t) by {
        let i = choose|i: int| 0 <= i < listed.len() && listed[i] == t;
        assert(all[i] == t);
        assert(all.contains(t));
    }
    assert forall|i: int, t: u64|
        0 <= i < listed.len() && #[trigger] s.tids.contains(t) && !listed.contains(
            t,
        ) implies #[trigger] listed[i] < t by {
        assert(all.contains(t));
        let j = choose|j: int| 0 <= j < all.len() && all[j] == t;
        if j < listed.len() {
            assert(listed[j] == t);
        }
        assert(all[i] == listed[i]);
    }
}

/// A summary of captures counts every thread once, lists the least of them in ascending order, no
/// more than [`MAX_CAPTURE_TIDS`], and says whether the list leaves some out.
pub proof fn law_threads_are_counted_once_and_listed_up_to_the_limit(data: Seq<Json>)
    requires
        all_fragments(data),
        observe_all(data).tids.len() <= u64::MAX,
    ensures
        ({
            let m = observe_all(data).summary();
            let all = tids_of(data);
            &&& all.finite()
            &&& m.capture_tid_count == all.len()
            &&& m.capture_tids.len() == if all.len() > MAX_CAPTURE_TIDS {
                MAX_CAPTURE_TIDS as nat
            } else {
                all.len()
            }
            &&& ordered::strictly_ascending(m.capture_tids)
            &&& forall|t: u64| #[trigger] m.capture_tids.contains(t) ==> all.contains(t)
            &&& forall|i: int, t: u64|
                0 <= i < m.capture_tids.len() && #[trigger] all.contains(t)
                    && !m.capture_tids.contains(t) ==> #[trigger] m.capture_tids[i] < t
            &&& m.capture_tids_truncated == (all.len() > MAX_CAPTURE_TIDS)
        }),
{
    lemma_tids(data);
    assert(observe_all(data).tids =~= tids_of(data));
    law_listed_threads_are_the_least(observe_all(data));
}

pub open spec fn number_or_null(value: Option<u64>) -> Json {
    match value {
        Some(n) => Json::Unsigned(n),
        None => Json::Null,
    }
}

pub open spec fn bool_or_null(value: Option<bool>) -> Json {
    match value {
        Some(b) => Json::Bool(b),
        None => Json::Null,
    }
}

/// The data hold the summary, each value under its name; one that is not known is null.
pub open spec fn carries(data: Json, m: CaptureSummary) -> bool {
    &&& data.field("transport_handle"@) == Some(crate::json::text_or_null(m.transport_handle))
    &&& data.field("process_start_ns"@) == Some(number_or_null(m.process_start_ns))
    &&& data.field("tls_library"@) == Some(crate::json::text_or_null(m.tls_library))
    &&& data.field("capture_seq_start"@) == Some(number_or_null(m.capture_seq_start))
    &&& data.field("capture_seq_end"@) == Some(number_or_null(m.capture_seq_end))
    &&& data.field("capture_fragment_count"@) == Some(Json::Unsigned(m.capture_fragment_count))
    &&& data.field("capture_original_len"@) == Some(number_or_null(m.capture_original_len))
    &&& data.field("capture_captured_len"@) == Some(number_or_null(m.capture_captured_len))
    &&& data.field("capture_truncated"@) == Some(bool_or_null(m.capture_truncated))
    &&& data.field("capture_bytes_lost"@) == Some(number_or_null(m.capture_bytes_lost))
    &&& data.field("ringbuf_reserve_failures_start"@) == Some(
        number_or_null(m.ringbuf_reserve_failures_start),
    )
    &&& data.field("ringbuf_reserve_failures_end"@) == Some(
        number_or_null(m.ringbuf_reserve_failures_end),
    )
    &&& data.field("capture_tids"@) == Some(
        Json::List(m.capture_tids.map_values(|t: u64| Json::Unsigned(t))),
    )
    &&& data.field("capture_tid_count"@) == Some(Json::Unsigned(m.capture_tid_count))
    &&& data.field("capture_tids_truncated"@) == Some(Json::Bool(m.capture_tids_truncated))
    &&& data.field("capture_identity_consistent"@) == Some(
        Json::Bool(m.capture_identity_consistent),
    )
    &&& data.field("capture_metadata_complete"@) == Some(Json::Bool(m.capture_metadata_complete))
}

/// What holds of the state after any observation.
pub open spec fn settled(s: CaptureState) -> bool {
    &&& s.seq_complete ==> s.seq_start is Some && s.seq_end is Some
    &&& s.lengths_complete ==> s.original_len is Some && s.captured_len is Some
    &&& s.bytes_lost_complete ==> s.bytes_lost is Some && !s.saw_unknown_truncation
    &&& !s.saw_truncated ==> s.saw_unknown_truncation || (s.bytes_lost_complete && s.bytes_lost
        == Some(0u64))
    &&& !s.saw_truncated ==> s.bytes_lost is None || s.bytes_lost == Some(0u64)
    &&& s.metadata_complete ==> s.lengths_complete && s.bytes_lost_complete
    &&& s.tids.finite()
}

/// The event stands for at least one capture: it is one, or it sums up more than none.
pub open spec fn counts(data: Json) -> bool {
    capture_metadata::number_of(data.field("capture_fragment_count"@)) != Some(0u64)
}

proof fn lemma_settled_after(s: CaptureState, data: Json)
    requires
        s == CaptureState::empty() || (settled(s) && s.fragment_count > 0),
        counts(data),
    ensures
        settled(s.observe(data)),
        s.observe(data).fragment_count > 0,
{
    broadcast use vstd::seq_lib::seq_to_set_is_finite;

    let t = s.observe(data);
    assert(t.tids.finite());
    assert(t.seq_complete ==> t.seq_start is Some && t.seq_end is Some);
    assert(t.lengths_complete ==> t.original_len is Some && t.captured_len is Some);
}

/// After any observations, what is called complete is known: the sequence range, the lengths and
/// the loss; and complete metadata have complete lengths and a known loss.
pub proof fn law_complete_means_known(data: Seq<Json>)
    requires
        data.len() > 0,
        forall|i: int| 0 <= i < data.len() ==> counts(#[trigger] data[i]),
    ensures
        settled(observe_all(data)),
        observe_all(data).fragment_count > 0,
    decreases data.len(),
{
    let before = data.drop_last();
    assert forall|i: int| 0 <= i < before.len() implies counts(#[trigger] before[i]) by {
        assert(before[i] == data[i]);
    }
    assert(counts(data[data.len() - 1]));
    if data.len() > 1 {
        law_complete_means_known(before);
    }
    lemma_settled_after(observe_all(before), data.last());
}

proof fn lemma_numbers_in(t: Seq<u64>)
    ensures
        capture_metadata::numbers_in(t.map_values(|x: u64| Json::Unsigned(x))) == t,
    decreases t.len(),
{
    let items = t.map_values(|x: u64| Json::Unsigned(x));
    if t.len() > 0 {
        lemma_numbers_in(t.drop_last());
        assert(items.drop_last() =~= t.drop_last().map_values(|x: u64| Json::Unsigned(x)));
        assert(t =~= t.drop_last().push(t.last()));
    } else {
        assert(capture_metadata::numbers_in(items) =~= t);
    }
}

/// An event that carries a summary stands for the events that the summary was made of: observed
/// alone, it gives the same summary again.
pub proof fn law_summaries_survive_being_observed(s: CaptureState, data: Json)
    requires
        settled(s),
        s.tids.len() <= u64::MAX,
        carries(data, s.summary()),
    ensures
        CaptureState::empty().observe(data).summary() == s.summary(),
{
    let m = s.summary();
    let e = CaptureState::empty().observe(data);
    let n = e.summary();
    let all = ordered::ascending(s.tids);
    let listed = m.capture_tids;
    ordered::lemma_ascending(s.tids);
    lemma_numbers_in(listed);
    assert(capture_metadata::numbers_of(data.field("capture_tids"@)) == listed);
    assert(e.tids =~= listed.to_set());
    assert(ordered::strictly_ascending(listed));
    assert forall|x: u64| #[trigger] listed.contains(x) <==> e.tids.contains(x) by {}
    ordered::lemma_ascending_is(listed, e.tids);
    assert(e.tids.finite());
    ordered::lemma_ascending(e.tids);
    assert(n.capture_tids =~= listed);
    assert(n.capture_tid_count == m.capture_tid_count);
    assert(n.capture_tids_truncated == m.capture_tids_truncated);
    assert(n.transport_handle == m.transport_handle);
    assert(n.process_start_ns == m.process_start_ns);
    assert(n.tls_library == m.tls_library);
    assert(n.capture_identity_consistent == m.capture_identity_consistent);
    assert(n.capture_seq_start == m.capture_seq_start);
    assert(n.capture_seq_end == m.capture_seq_end);
    assert(n.capture_original_len == m.capture_original_len);
    assert(n.capture_captured_len == m.capture_captured_len);
    assert(n.capture_truncated == m.capture_truncated);
    assert(n.capture_bytes_lost == m.capture_bytes_lost);
    assert(n.capture_metadata_complete == m.capture_metadata_complete);
}

} // verus!
