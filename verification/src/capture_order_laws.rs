//! Laws of provenance summaries: what it takes to be complete, and that the order of captures does
//! not matter.

use crate::capture_laws;
use crate::capture_metadata;
use crate::capture_metadata::CaptureSummary;
use crate::json::Json;
use vstd::prelude::*;

verus! {

/// The number of bytes that a capture says it lost, where it says that some were.
pub open spec fn loss(data: Json) -> nat {
    let f = capture_metadata::fragment_in(data);
    match (f.truncated, f.bytes_lost) {
        (Some(true), Some(n)) => n as nat,
        _ => 0,
    }
}

/// The capture says whether bytes were lost, and if so how many.
pub open spec fn loss_is_told(data: Json) -> bool {
    let f = capture_metadata::fragment_in(data);
    f.truncated is Some && (f.truncated == Some(true) ==> f.bytes_lost is Some)
}

pub open spec fn all_losses(data: Seq<Json>) -> bool {
    forall|i: int| 0 <= i < data.len() ==> loss_is_told(#[trigger] data[i])
}

pub open spec fn lost_total(data: Seq<Json>) -> nat
    decreases data.len(),
{
    if data.len() == 0 {
        0
    } else {
        lost_total(data.drop_last()) + loss(data.last())
    }
}

proof fn lemma_loss(data: Seq<Json>)
    requires
        capture_laws::all_fragments(data),
        data.len() > 0,
    ensures
        ({
            let s = capture_laws::observe_all(data);
            let fits = all_losses(data) && lost_total(data) <= u64::MAX;
            &&& s.bytes_lost_complete == fits
            &&& fits ==> s.bytes_lost == Some(lost_total(data) as u64)
        }),
    decreases data.len(),
{
    let before = data.drop_last();
    capture_laws::lemma_prefix_fragments(data);
    assert(data.last() == data[data.len() - 1]);
    if data.len() > 1 {
        lemma_loss(before);
    }
    assert(forall|i: int| 0 <= i < before.len() ==> #[trigger] before[i] == data[i]);
    assert(forall|i: int| 0 <= i < before.len() ==> #[trigger] data[i] == before[i]);
    assert(all_losses(data) == (all_losses(before) && loss_is_told(data.last())));
}

/// A capture says who was captured, its place in the sequence, both lengths, whether bytes were
/// lost, the reserve failures and the thread.
pub open spec fn tells_all(data: Json) -> bool {
    let f = capture_metadata::fragment_in(data);
    &&& f.transport_handle is Some
    &&& f.process_start_ns is Some
    &&& f.tls_library is Some
    &&& f.seq is Some
    &&& f.original_len is Some
    &&& f.captured_len is Some
    &&& loss_is_told(data)
    &&& f.failures is Some
    &&& f.tid is Some
}

pub open spec fn all_tell_all(data: Seq<Json>) -> bool {
    forall|i: int| 0 <= i < data.len() ==> tells_all(#[trigger] data[i])
}

proof fn lemma_parts_of_all(data: Seq<Json>)
    ensures
        all_tell_all(data) ==> capture_laws::all_lengths(data) && all_losses(data),
        data.len() > 0 ==> all_tell_all(data) == (all_tell_all(data.drop_last()) && tells_all(
            data.last(),
        )),
{
    if all_tell_all(data) {
        assert forall|i: int| 0 <= i < data.len() implies capture_laws::lengths(#[trigger] data[i]).0 is Some
            && capture_laws::lengths(data[i]).1 is Some by {
            assert(tells_all(data[i]));
        }
        assert forall|i: int| 0 <= i < data.len() implies loss_is_told(#[trigger] data[i]) by {
            assert(tells_all(data[i]));
        }
    }
    if data.len() > 0 {
        let before = data.drop_last();
        assert(forall|i: int| 0 <= i < before.len() ==> #[trigger] before[i] == data[i]);
        assert(forall|i: int| 0 <= i < before.len() ==> #[trigger] data[i] == before[i]);
        assert(data.last() == data[data.len() - 1]);
    }
}

/// The metadata of captures are complete exactly if every capture tells all, and 64 bits hold the
/// totals of the lengths and of the loss. That captures contradict each other does not matter.
pub proof fn law_complete_exactly_if_all_is_told(data: Seq<Json>)
    requires
        capture_laws::all_fragments(data),
        data.len() > 0,
    ensures
        capture_laws::observe_all(data).summary().capture_metadata_complete == (all_tell_all(data)
            && capture_laws::original_total(data) <= u64::MAX && capture_laws::captured_total(data) <= u64::MAX && lost_total(
            data,
        ) <= u64::MAX),
    decreases data.len(),
{
    let before = data.drop_last();
    capture_laws::lemma_prefix_fragments(data);
    lemma_parts_of_all(data);
    if data.len() > 1 {
        law_complete_exactly_if_all_is_told(before);
        capture_laws::lemma_lengths(before);
        lemma_loss(before);
        lemma_parts_of_all(before);
    }
}

/// The sum of a number for each of the data.
spec fn summed(data: Seq<Json>, amount: spec_fn(Json) -> nat) -> nat
    decreases data.len(),
{
    if data.len() == 0 {
        0
    } else {
        summed(data.drop_last(), amount) + amount(data.last())
    }
}

proof fn lemma_summed_without(data: Seq<Json>, amount: spec_fn(Json) -> nat, i: int)
    requires
        0 <= i < data.len(),
    ensures
        summed(data, amount) == summed(data.remove(i), amount) + amount(data[i]),
    decreases data.len(),
{
    let n = data.len() as int;
    if i == n - 1 {
        assert(data.remove(i) =~= data.drop_last());
    } else {
        lemma_summed_without(data.drop_last(), amount, i);
        assert(data.remove(i).drop_last() =~= data.drop_last().remove(i));
        assert(data.remove(i).last() == data.last());
    }
}

proof fn lemma_summed_in_any_order(a: Seq<Json>, b: Seq<Json>, amount: spec_fn(Json) -> nat)
    requires
        a.to_multiset() == b.to_multiset(),
    ensures
        summed(a, amount) == summed(b, amount),
    decreases a.len(),
{
    vstd::seq_lib::to_multiset_len(a);
    vstd::seq_lib::to_multiset_len(b);
    if a.len() > 0 {
        let last = a.len() - 1;
        let x = a[last];
        assert(a.contains(x));
        vstd::seq_lib::to_multiset_contains(a, x);
        vstd::seq_lib::to_multiset_contains(b, x);
        let k = choose|k: int| 0 <= k < b.len() && b[k] == x;
        lemma_summed_without(a, amount, last);
        lemma_summed_without(b, amount, k);
        vstd::seq_lib::to_multiset_remove(a, last);
        vstd::seq_lib::to_multiset_remove(b, k);
        lemma_summed_in_any_order(a.remove(last), b.remove(k), amount);
    }
}

proof fn lemma_totals_in_any_order(a: Seq<Json>, b: Seq<Json>)
    requires
        a.to_multiset() == b.to_multiset(),
    ensures
        capture_laws::original_total(a) == capture_laws::original_total(b),
        capture_laws::captured_total(a) == capture_laws::captured_total(b),
        lost_total(a) == lost_total(b),
{
    let original = |d: Json|
        match capture_laws::lengths(d).0 {
            Some(n) => n as nat,
            None => 0,
        };
    let captured = |d: Json|
        match capture_laws::lengths(d).1 {
            Some(n) => n as nat,
            None => 0,
        };
    let lost = |d: Json| loss(d);
    lemma_totals_are_summed(a, original, captured, lost);
    lemma_totals_are_summed(b, original, captured, lost);
    lemma_summed_in_any_order(a, b, original);
    lemma_summed_in_any_order(a, b, captured);
    lemma_summed_in_any_order(a, b, lost);
}

proof fn lemma_totals_are_summed(
    data: Seq<Json>,
    original: spec_fn(Json) -> nat,
    captured: spec_fn(Json) -> nat,
    lost: spec_fn(Json) -> nat,
)
    requires
        forall|d: Json|
            #[trigger] original(d) == match capture_laws::lengths(d).0 {
                Some(n) => n as nat,
                None => 0,
            },
        forall|d: Json|
            #[trigger] captured(d) == match capture_laws::lengths(d).1 {
                Some(n) => n as nat,
                None => 0,
            },
        forall|d: Json| #[trigger] lost(d) == loss(d),
    ensures
        capture_laws::original_total(data) == summed(data, original),
        capture_laws::captured_total(data) == summed(data, captured),
        lost_total(data) == summed(data, lost),
    decreases data.len(),
{
    if data.len() > 0 {
        lemma_totals_are_summed(data.drop_last(), original, captured, lost);
    }
}

/// Every one of `a` is one of `b`.
spec fn within(a: Seq<Json>, b: Seq<Json>) -> bool {
    forall|i: int| 0 <= i < a.len() ==> b.contains(#[trigger] a[i])
}

proof fn lemma_within(a: Seq<Json>, b: Seq<Json>)
    requires
        a.to_multiset() == b.to_multiset(),
    ensures
        within(a, b),
{
    assert forall|i: int| 0 <= i < a.len() implies b.contains(#[trigger] a[i]) by {
        assert(a.contains(a[i]));
        vstd::seq_lib::to_multiset_contains(a, a[i]);
        vstd::seq_lib::to_multiset_contains(b, a[i]);
    }
}

/// What holds of all of `b` holds of all of `a`.
proof fn lemma_all_within(a: Seq<Json>, b: Seq<Json>)
    requires
        within(a, b),
    ensures
        capture_laws::all_fragments(b) ==> capture_laws::all_fragments(a),
        capture_laws::all_lengths(b) ==> capture_laws::all_lengths(a),
        all_losses(b) ==> all_losses(a),
        all_tell_all(b) ==> all_tell_all(a),
{
    assert forall|i: int| 0 <= i < a.len() && capture_laws::all_fragments(b) implies (#[trigger] a[i]).field(
        "capture_fragment_count"@,
    ) is None by {
        assert(b.contains(a[i]));
    }
    assert forall|i: int| 0 <= i < a.len() && capture_laws::all_lengths(b) implies capture_laws::lengths(#[trigger] a[i]).0
         is Some && capture_laws::lengths(a[i]).1 is Some by {
        assert(b.contains(a[i]));
    }
    assert forall|i: int| 0 <= i < a.len() && all_losses(b) implies loss_is_told(#[trigger] a[i]) by {
        assert(b.contains(a[i]));
    }
    assert forall|i: int| 0 <= i < a.len() && all_tell_all(b) implies tells_all(#[trigger] a[i]) by {
        assert(b.contains(a[i]));
    }
}

proof fn lemma_range_in_any_order(a: Seq<Json>, b: Seq<Json>)
    requires
        capture_laws::all_fragments(a),
        capture_laws::all_fragments(b),
        a.len() > 0,
        b.len() > 0,
        within(a, b),
        within(b, a),
    ensures
        ({
            let m = capture_laws::observe_all(a).summary();
            let n = capture_laws::observe_all(b).summary();
            &&& m.capture_seq_start == n.capture_seq_start
            &&& m.capture_seq_end == n.capture_seq_end
        }),
{
    let m = capture_laws::observe_all(a).summary();
    let n = capture_laws::observe_all(b).summary();
    capture_laws::law_sequence_range_is_tight(a);
    capture_laws::law_sequence_range_is_tight(b);
    lemma_sequence_within(a, b);
    lemma_sequence_within(b, a);
    if m.capture_seq_start is Some {
        let i = choose|i: int|
            0 <= i < a.len() && capture_laws::seq_number(#[trigger] a[i]) == m.capture_seq_start;
        let j = choose|j: int|
            0 <= j < b.len() && capture_laws::seq_number(#[trigger] b[j]) == n.capture_seq_start;
        let k = choose|k: int|
            0 <= k < a.len() && capture_laws::seq_number(#[trigger] a[k]) == m.capture_seq_end;
        let l = choose|l: int|
            0 <= l < b.len() && capture_laws::seq_number(#[trigger] b[l]) == n.capture_seq_end;
        assert(b.contains(a[i]) && a.contains(b[j]) && b.contains(a[k]) && a.contains(b[l]));
    }
}

proof fn lemma_sequence_within(a: Seq<Json>, b: Seq<Json>)
    requires
        within(a, b),
    ensures
        (forall|i: int| 0 <= i < b.len() ==> capture_laws::seq_number(#[trigger] b[i]) is Some)
            ==> (forall|i: int|
            0 <= i < a.len() ==> capture_laws::seq_number(#[trigger] a[i]) is Some),
{
    if forall|i: int| 0 <= i < b.len() ==> capture_laws::seq_number(#[trigger] b[i]) is Some {
        assert forall|i: int| 0 <= i < a.len() implies capture_laws::seq_number(
            #[trigger] a[i],
        ) is Some by {
            assert(b.contains(a[i]));
        }
    }
}

proof fn lemma_agrees_in_any_order<T>(
    held: capture_metadata::Consistent<T>,
    given: Seq<Option<T>>,
    other: capture_metadata::Consistent<T>,
    other_given: Seq<Option<T>>,
)
    requires
        capture_laws::agrees(held, given),
        capture_laws::agrees(other, other_given),
        forall|i: int| 0 <= i < given.len() ==> other_given.contains(#[trigger] given[i]),
        forall|i: int| 0 <= i < other_given.len() ==> given.contains(#[trigger] other_given[i]),
    ensures
        held.conflicted == other.conflicted,
        held.result() == other.result(),
{
    if held.value is Some {
        let i = choose|i: int| 0 <= i < given.len() && #[trigger] given[i] == held.value;
        assert(other_given.contains(given[i]));
    }
    if other.value is Some {
        let j = choose|j: int|
            0 <= j < other_given.len() && #[trigger] other_given[j] == other.value;
        assert(given.contains(other_given[j]));
    }
    if held.conflicted {
        let i = choose|i: int|
            0 <= i < given.len() && #[trigger] given[i] is Some && given[i] != held.value;
        assert(other_given.contains(given[i]));
        let k = choose|k: int| 0 <= k < given.len() && #[trigger] given[k] == held.value;
        assert(other_given.contains(given[k]));
    }
    if other.conflicted {
        let j = choose|j: int|
            0 <= j < other_given.len() && #[trigger] other_given[j] is Some && other_given[j]
                != other.value;
        assert(given.contains(other_given[j]));
        let k = choose|k: int|
            0 <= k < other_given.len() && #[trigger] other_given[k] == other.value;
        assert(given.contains(other_given[k]));
    }
}

proof fn lemma_given_within(a: Seq<Json>, b: Seq<Json>)
    requires
        within(a, b),
    ensures
        forall|i: int|
            0 <= i < a.len() ==> capture_laws::handles(b).contains(
                #[trigger] capture_laws::handles(a)[i],
            ),
        forall|i: int|
            0 <= i < a.len() ==> capture_laws::start_times(b).contains(
                #[trigger] capture_laws::start_times(a)[i],
            ),
        forall|i: int|
            0 <= i < a.len() ==> capture_laws::libraries(b).contains(
                #[trigger] capture_laws::libraries(a)[i],
            ),
{
    assert forall|i: int| 0 <= i < a.len() implies capture_laws::handles(b).contains(
        #[trigger] capture_laws::handles(a)[i],
    ) by {
        assert(b.contains(a[i]));
        let j = choose|j: int| 0 <= j < b.len() && b[j] == a[i];
        assert(capture_laws::handles(b)[j] == capture_laws::handles(a)[i]);
    }
    assert forall|i: int| 0 <= i < a.len() implies capture_laws::start_times(b).contains(
        #[trigger] capture_laws::start_times(a)[i],
    ) by {
        assert(b.contains(a[i]));
        let j = choose|j: int| 0 <= j < b.len() && b[j] == a[i];
        assert(capture_laws::start_times(b)[j] == capture_laws::start_times(a)[i]);
    }
    assert forall|i: int| 0 <= i < a.len() implies capture_laws::libraries(b).contains(
        #[trigger] capture_laws::libraries(a)[i],
    ) by {
        assert(b.contains(a[i]));
        let j = choose|j: int| 0 <= j < b.len() && b[j] == a[i];
        assert(capture_laws::libraries(b)[j] == capture_laws::libraries(a)[i]);
    }
}

proof fn lemma_identity_in_any_order(a: Seq<Json>, b: Seq<Json>)
    requires
        capture_laws::all_fragments(a),
        capture_laws::all_fragments(b),
        a.len() > 0,
        b.len() > 0,
        within(a, b),
        within(b, a),
    ensures
        ({
            let m = capture_laws::observe_all(a).summary();
            let n = capture_laws::observe_all(b).summary();
            &&& m.transport_handle == n.transport_handle
            &&& m.process_start_ns == n.process_start_ns
            &&& m.tls_library == n.tls_library
            &&& m.capture_identity_consistent == n.capture_identity_consistent
        }),
{
    let s = capture_laws::observe_all(a);
    let t = capture_laws::observe_all(b);
    capture_laws::lemma_identity(a);
    capture_laws::lemma_identity(b);
    lemma_given_within(a, b);
    lemma_given_within(b, a);
    lemma_agrees_in_any_order(
        s.transport_handle,
        capture_laws::handles(a),
        t.transport_handle,
        capture_laws::handles(b),
    );
    lemma_agrees_in_any_order(
        s.process_start_ns,
        capture_laws::start_times(a),
        t.process_start_ns,
        capture_laws::start_times(b),
    );
    lemma_agrees_in_any_order(
        s.tls_library,
        capture_laws::libraries(a),
        t.tls_library,
        capture_laws::libraries(b),
    );
}

/// Some capture says this of truncation.
spec fn some_says(data: Seq<Json>, truncated: Option<bool>) -> bool {
    exists|i: int|
        0 <= i < data.len() && capture_metadata::fragment_in(#[trigger] data[i]).truncated
            == truncated
}

proof fn lemma_truncation(data: Seq<Json>)
    requires
        capture_laws::all_fragments(data),
    ensures
        capture_laws::observe_all(data).saw_truncated == some_says(data, Some(true)),
        capture_laws::observe_all(data).saw_unknown_truncation == some_says(data, None),
    decreases data.len(),
{
    if data.len() > 0 {
        let before = data.drop_last();
        capture_laws::lemma_prefix_fragments(data);
        lemma_truncation(before);
        lemma_some_says(data, Some(true));
        lemma_some_says(data, None);
    }
}

proof fn lemma_some_says(data: Seq<Json>, truncated: Option<bool>)
    requires
        data.len() > 0,
    ensures
        some_says(data, truncated) == (some_says(data.drop_last(), truncated)
            || capture_metadata::fragment_in(data.last()).truncated == truncated),
{
    let before = data.drop_last();
    assert(data.last() == data[data.len() - 1]);
    if some_says(before, truncated) {
        let i = choose|i: int|
            0 <= i < before.len() && capture_metadata::fragment_in(#[trigger] before[i]).truncated
                == truncated;
        assert(data[i] == before[i]);
    }
    if some_says(data, truncated) {
        let i = choose|i: int|
            0 <= i < data.len() && capture_metadata::fragment_in(#[trigger] data[i]).truncated
                == truncated;
        if i < before.len() {
            assert(before[i] == data[i]);
        }
    }
}

proof fn lemma_some_says_within(a: Seq<Json>, b: Seq<Json>, truncated: Option<bool>)
    requires
        within(a, b),
    ensures
        some_says(a, truncated) ==> some_says(b, truncated),
{
    if some_says(a, truncated) {
        let i = choose|i: int|
            0 <= i < a.len() && capture_metadata::fragment_in(#[trigger] a[i]).truncated
                == truncated;
        assert(b.contains(a[i]));
    }
}

proof fn lemma_tids_within(a: Seq<Json>, b: Seq<Json>)
    requires
        within(a, b),
    ensures
        capture_laws::tids_of(a).subset_of(capture_laws::tids_of(b)),
{
    assert forall|t: u64| capture_laws::tids_of(a).contains(
        t,
    ) implies capture_laws::tids_of(b).contains(t) by {
        let i = choose|i: int|
            0 <= i < a.len() && capture_metadata::fragment_in(#[trigger] a[i]).tid == Some(t);
        assert(b.contains(a[i]));
    }
}

/// The reserve failures of a summary are those that the first capture and the last one tell.
pub proof fn law_failures_follow_the_first_and_the_last(data: Seq<Json>)
    requires
        capture_laws::all_fragments(data),
        data.len() > 0,
    ensures
        ({
            let m = capture_laws::observe_all(data).summary();
            &&& m.ringbuf_reserve_failures_start == capture_metadata::fragment_in(
                data.first(),
            ).failures
            &&& m.ringbuf_reserve_failures_end == capture_metadata::fragment_in(
                data.last(),
            ).failures
        }),
    decreases data.len(),
{
    capture_laws::lemma_prefix_fragments(data);
    if data.len() > 1 {
        law_failures_follow_the_first_and_the_last(data.drop_last());
    }
}

/// The summaries say the same, but for the reserve failures.
pub open spec fn alike_but_for_failures(m: CaptureSummary, n: CaptureSummary) -> bool {
    n == CaptureSummary {
        ringbuf_reserve_failures_start: n.ringbuf_reserve_failures_start,
        ringbuf_reserve_failures_end: n.ringbuf_reserve_failures_end,
        ringbuf_reserve_failures_delta: n.ringbuf_reserve_failures_delta,
        ..m
    }
}

/// The order in which captures are observed does not matter to their summary, but for the reserve
/// failures, which follow the first capture and the last one.
pub proof fn law_order_of_captures_does_not_matter(a: Seq<Json>, b: Seq<Json>)
    requires
        capture_laws::all_fragments(a),
        a.to_multiset() == b.to_multiset(),
    ensures
        alike_but_for_failures(
            capture_laws::observe_all(a).summary(),
            capture_laws::observe_all(b).summary(),
        ),
{
    vstd::seq_lib::to_multiset_len(a);
    vstd::seq_lib::to_multiset_len(b);
    if a.len() == 0 {
        assert(a =~= b);
    } else {
        let s = capture_laws::observe_all(a);
        let t = capture_laws::observe_all(b);
        lemma_within(a, b);
        lemma_within(b, a);
        lemma_all_within(a, b);
        lemma_all_within(b, a);
        lemma_totals_in_any_order(a, b);
        capture_laws::law_every_fragment_is_counted(a);
        capture_laws::law_every_fragment_is_counted(b);
        capture_laws::law_lengths_are_totals_or_absent(a);
        capture_laws::law_lengths_are_totals_or_absent(b);
        lemma_range_in_any_order(a, b);
        lemma_identity_in_any_order(a, b);
        lemma_loss(a);
        lemma_loss(b);
        lemma_truncation(a);
        lemma_truncation(b);
        lemma_some_says_within(a, b, Some(true));
        lemma_some_says_within(b, a, Some(true));
        lemma_some_says_within(a, b, None);
        lemma_some_says_within(b, a, None);
        capture_laws::lemma_tids(a);
        capture_laws::lemma_tids(b);
        lemma_tids_within(a, b);
        lemma_tids_within(b, a);
        assert(s.tids =~= t.tids);
        law_complete_exactly_if_all_is_told(a);
        law_complete_exactly_if_all_is_told(b);
    }
}

} // verus!
