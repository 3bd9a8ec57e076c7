//! Bounded provenance summaries for events assembled from one or more captures.
//!
//! An accumulator observes events one by one. An event is either a capture itself (a fragment) or
//! carries the summary of captures that were observed before; the summary of the accumulator
//! covers both.

use crate::event::Event;
use crate::json;
use crate::json::{Json, JsonValue};
use crate::ordered;
use crate::text;
use std::collections::BTreeSet;
use vstd::prelude::*;

verus! {

broadcast use vstd::std_specs::btree::group_btree_axioms;

/// How many thread ids a summary lists.
pub const MAX_CAPTURE_TIDS: usize = 64;

/// A value that should be the same in every observation: the first one seen, and whether a
/// different one was seen later.
pub struct Consistent<T> {
    pub value: Option<T>,
    pub conflicted: bool,
}

impl<T> Consistent<T> {
    pub open spec fn unseen() -> Consistent<T> {
        Consistent { value: None, conflicted: false }
    }

    pub open spec fn observe(self, value: Option<T>) -> Consistent<T> {
        match value {
            None => self,
            Some(v) => match self.value {
                None => Consistent { value: Some(v), conflicted: self.conflicted },
                Some(existing) => Consistent {
                    value: Some(existing),
                    conflicted: self.conflicted || existing != v,
                },
            },
        }
    }

    pub open spec fn invalidate(self) -> Consistent<T> {
        Consistent { value: self.value, conflicted: true }
    }

    pub open spec fn result(self) -> Option<T> {
        if self.conflicted {
            None
        } else {
            self.value
        }
    }
}

/// What a summary says.
pub struct CaptureSummary {
    pub transport_handle: Option<Seq<char>>,
    pub process_start_ns: Option<u64>,
    pub tls_library: Option<Seq<char>>,
    pub capture_seq_start: Option<u64>,
    pub capture_seq_end: Option<u64>,
    pub capture_fragment_count: u64,
    pub capture_original_len: Option<u64>,
    pub capture_captured_len: Option<u64>,
    pub capture_truncated: Option<bool>,
    pub capture_bytes_lost: Option<u64>,
    pub ringbuf_reserve_failures_start: Option<u64>,
    pub ringbuf_reserve_failures_end: Option<u64>,
    pub ringbuf_reserve_failures_delta: Option<u64>,
    pub capture_tids: Seq<u64>,
    pub capture_tid_count: u64,
    pub capture_tids_truncated: bool,
    pub capture_identity_consistent: bool,
    pub capture_metadata_complete: bool,
}

/// What an accumulator knows.
pub struct CaptureState {
    pub transport_handle: Consistent<Seq<char>>,
    pub process_start_ns: Consistent<u64>,
    pub tls_library: Consistent<Seq<char>>,
    pub seq_start: Option<u64>,
    pub seq_end: Option<u64>,
    pub seq_complete: bool,
    pub fragment_count: u64,
    pub original_len: Option<u64>,
    pub captured_len: Option<u64>,
    pub lengths_complete: bool,
    pub saw_truncated: bool,
    pub saw_unknown_truncation: bool,
    pub bytes_lost: Option<u64>,
    pub bytes_lost_complete: bool,
    pub failures_start: Option<u64>,
    pub failures_end: Option<u64>,
    pub tids: Set<u64>,
    pub unlisted_tid_count: u64,
    pub tids_truncated: bool,
    pub identity_consistent: bool,
    pub metadata_complete: bool,
}

/// A number, given as a number or as its digits.
pub open spec fn number_of(value: Option<Json>) -> Option<u64> {
    match value {
        Some(Json::Unsigned(n)) => Some(n),
        Some(Json::Text(s)) => match text::parse_unsigned(s, u64::MAX as nat) {
            Some(n) => Some(n as u64),
            None => None,
        },
        _ => None,
    }
}

/// A text, given as a text or as a number.
pub open spec fn text_of(value: Option<Json>) -> Option<Seq<char>> {
    match value {
        Some(Json::Text(s)) => Some(s),
        Some(Json::Unsigned(n)) => Some(text::decimal(n as nat)),
        Some(Json::Negative(n)) => Some(
            if n < 0 {
                seq!['-'] + text::decimal((-n) as nat)
            } else {
                text::decimal(n as nat)
            },
        ),
        Some(Json::Float(s)) => Some(s),
        _ => None,
    }
}

/// `a + b`, at most the largest 64-bit number.
pub open spec fn saturating_sum(a: u64, b: u64) -> u64 {
    if a + b > u64::MAX {
        u64::MAX
    } else {
        (a + b) as u64
    }
}

/// A running total and one number more, where 64 bits hold the sum; a total not begun is 0.
pub open spec fn total(current: Option<u64>, value: u64) -> Option<u64> {
    let before = match current {
        Some(n) => n,
        None => 0,
    };
    if before + value > u64::MAX {
        None
    } else {
        Some((before + value) as u64)
    }
}

pub open spec fn least(current: Option<u64>, value: u64) -> u64 {
    match current {
        Some(n) => if n < value {
            n
        } else {
            value
        },
        None => value,
    }
}

pub open spec fn greatest(current: Option<u64>, value: u64) -> u64 {
    match current {
        Some(n) => if n > value {
            n
        } else {
            value
        },
        None => value,
    }
}

/// The numbers among the items of a list.
pub open spec fn numbers_in(items: Seq<Json>) -> Seq<u64>
    decreases items.len(),
{
    if items.len() == 0 {
        Seq::empty()
    } else {
        match number_of(Some(items.last())) {
            Some(n) => numbers_in(items.drop_last()).push(n),
            None => numbers_in(items.drop_last()),
        }
    }
}

/// The numbers in the list that a value is; none where it is no list.
pub open spec fn numbers_of(value: Option<Json>) -> Seq<u64> {
    match value {
        Some(v) => match v.as_list() {
            Some(items) => numbers_in(items),
            None => Seq::empty(),
        },
        None => Seq::empty(),
    }
}

/// What the data of a capture says.
pub struct Fragment {
    pub transport_handle: Option<Seq<char>>,
    pub process_start_ns: Option<u64>,
    pub tls_library: Option<Seq<char>>,
    pub seq: Option<u64>,
    pub original_len: Option<u64>,
    pub captured_len: Option<u64>,
    pub truncated: Option<bool>,
    pub bytes_lost: Option<u64>,
    pub failures: Option<u64>,
    pub tid: Option<u64>,
}

pub open spec fn fragment_in(data: Json) -> Fragment {
    Fragment {
        transport_handle: text_of(data.field("transport_handle"@)),
        process_start_ns: number_of(data.field("process_start_ns"@)),
        tls_library: text_of(data.field("tls_library"@)),
        seq: number_of(data.field("capture_seq"@)),
        original_len: number_of(data.field("len"@)),
        captured_len: number_of(data.field("buf_size"@)),
        truncated: data.boolean_field("truncated"@),
        bytes_lost: number_of(data.field("bytes_lost"@)),
        failures: number_of(data.field("ringbuf_reserve_failures"@)),
        tid: number_of(data.field("tid"@)),
    }
}

/// What data that carries a summary says. A flag that is not there counts as false.
pub struct Report {
    pub fragment_count: Option<u64>,
    pub transport_handle: Option<Seq<char>>,
    pub process_start_ns: Option<u64>,
    pub tls_library: Option<Seq<char>>,
    pub identity_consistent: bool,
    pub seq_start: Option<u64>,
    pub seq_end: Option<u64>,
    pub original_len: Option<u64>,
    pub captured_len: Option<u64>,
    pub truncated: Option<bool>,
    pub bytes_lost: Option<u64>,
    pub failures_start: Option<u64>,
    pub failures_end: Option<u64>,
    pub tids: Seq<u64>,
    pub tid_count: Option<u64>,
    pub tids_truncated: bool,
    pub metadata_complete: bool,
}

pub open spec fn report_in(data: Json) -> Report {
    Report {
        fragment_count: number_of(data.field("capture_fragment_count"@)),
        transport_handle: text_of(data.field("transport_handle"@)),
        process_start_ns: number_of(data.field("process_start_ns"@)),
        tls_library: text_of(data.field("tls_library"@)),
        identity_consistent: data.boolean_field("capture_identity_consistent"@) == Some(true),
        seq_start: number_of(data.field("capture_seq_start"@)),
        seq_end: number_of(data.field("capture_seq_end"@)),
        original_len: number_of(data.field("capture_original_len"@)),
        captured_len: number_of(data.field("capture_captured_len"@)),
        truncated: data.boolean_field("capture_truncated"@),
        bytes_lost: number_of(data.field("capture_bytes_lost"@)),
        failures_start: number_of(data.field("ringbuf_reserve_failures_start"@)),
        failures_end: number_of(data.field("ringbuf_reserve_failures_end"@)),
        tids: numbers_of(data.field("capture_tids"@)),
        tid_count: number_of(data.field("capture_tid_count"@)),
        tids_truncated: data.boolean_field("capture_tids_truncated"@) == Some(true),
        metadata_complete: data.boolean_field("capture_metadata_complete"@) == Some(true),
    }
}

/// Both lengths are there and both totals still fit.
pub open spec fn lengths_counted(
    s: CaptureState,
    original: Option<u64>,
    captured: Option<u64>,
) -> bool {
    match (original, captured) {
        (Some(o), Some(c)) => total(s.original_len, o) is Some && total(s.captured_len, c) is Some,
        _ => false,
    }
}

/// It is known whether bytes were lost, and the total of those lost still fits.
pub open spec fn loss_counted(s: CaptureState, truncated: Option<bool>, lost: Option<u64>) -> bool {
    match truncated {
        Some(true) => match lost {
            Some(n) => total(s.bytes_lost, n) is Some,
            None => false,
        },
        Some(false) => true,
        None => false,
    }
}

impl CaptureState {
    /// Nothing observed yet.
    pub open spec fn empty() -> CaptureState {
        CaptureState {
            transport_handle: Consistent::unseen(),
            process_start_ns: Consistent::unseen(),
            tls_library: Consistent::unseen(),
            seq_start: None,
            seq_end: None,
            seq_complete: false,
            fragment_count: 0,
            original_len: None,
            captured_len: None,
            lengths_complete: false,
            saw_truncated: false,
            saw_unknown_truncation: false,
            bytes_lost: None,
            bytes_lost_complete: false,
            failures_start: None,
            failures_end: None,
            tids: Set::empty(),
            unlisted_tid_count: 0,
            tids_truncated: false,
            identity_consistent: false,
            metadata_complete: false,
        }
    }

    /// The totals of the lengths after one more pair of them.
    pub open spec fn add_lengths(
        self,
        original: Option<u64>,
        captured: Option<u64>,
    ) -> CaptureState {
        let counted = lengths_counted(self, original, captured);
        CaptureState {
            original_len: match (original, captured) {
                (Some(o), Some(_)) => total(self.original_len, o),
                _ => self.original_len,
            },
            captured_len: match (original, captured) {
                (Some(_), Some(c)) => total(self.captured_len, c),
                _ => self.captured_len,
            },
            lengths_complete: self.lengths_complete && counted,
            metadata_complete: self.metadata_complete && counted,
            ..self
        }
    }

    /// What is known of truncation after one more observation.
    pub open spec fn observe_truncation(
        self,
        truncated: Option<bool>,
        lost: Option<u64>,
    ) -> CaptureState {
        let counted = loss_counted(self, truncated, lost);
        CaptureState {
            saw_truncated: self.saw_truncated || truncated == Some(true),
            saw_unknown_truncation: self.saw_unknown_truncation || truncated is None,
            bytes_lost: match (truncated, lost) {
                (Some(true), Some(n)) => total(self.bytes_lost, n),
                (Some(false), _) => total(self.bytes_lost, 0),
                _ => self.bytes_lost,
            },
            bytes_lost_complete: self.bytes_lost_complete && counted,
            metadata_complete: self.metadata_complete && counted,
            ..self
        }
    }

    /// The state that the first observation starts from: complete until something is missing.
    pub open spec fn begun(self) -> CaptureState {
        if self.fragment_count == 0 {
            CaptureState {
                seq_complete: true,
                lengths_complete: true,
                bytes_lost_complete: true,
                identity_consistent: true,
                metadata_complete: true,
                ..self
            }
        } else {
            self
        }
    }

    /// What is known of the identity after one more observation of it.
    pub open spec fn observe_identity(
        self,
        transport_handle: Option<Seq<char>>,
        process_start_ns: Option<u64>,
        tls_library: Option<Seq<char>>,
        consistent: bool,
    ) -> CaptureState {
        let handle = self.transport_handle.observe(transport_handle);
        let start_ns = self.process_start_ns.observe(process_start_ns);
        let library = self.tls_library.observe(tls_library);
        if consistent {
            CaptureState {
                transport_handle: handle,
                process_start_ns: start_ns,
                tls_library: library,
                ..self
            }
        } else {
            CaptureState {
                transport_handle: handle.invalidate(),
                process_start_ns: start_ns.invalidate(),
                tls_library: library.invalidate(),
                identity_consistent: false,
                ..self
            }
        }
    }

    /// The range of sequence numbers after one more range; a missing end leaves it incomplete.
    pub open spec fn observe_range(self, start: Option<u64>, end: Option<u64>) -> CaptureState {
        match (start, end) {
            (Some(first), Some(last)) => CaptureState {
                seq_start: Some(least(self.seq_start, first)),
                seq_end: Some(greatest(self.seq_end, last)),
                ..self
            },
            _ => CaptureState { seq_complete: false, ..self },
        }
    }

    /// The threads after a list of some, of which `tid_count` says how many there were.
    pub open spec fn observe_tids(
        self,
        listed: Seq<u64>,
        tid_count: Option<u64>,
        truncated: bool,
    ) -> CaptureState {
        let unlisted = match tid_count {
            Some(n) => if n > listed.len() {
                (n - listed.len()) as u64
            } else {
                0
            },
            None => 0,
        };
        CaptureState {
            tids: self.tids.union(listed.to_set()),
            unlisted_tid_count: if unlisted > self.unlisted_tid_count {
                unlisted
            } else {
                self.unlisted_tid_count
            },
            tids_truncated: self.tids_truncated || truncated,
            ..self
        }
    }

    pub open spec fn observe_tid(self, tid: Option<u64>) -> CaptureState {
        match tid {
            Some(t) => CaptureState { tids: self.tids.insert(t), ..self },
            None => self,
        }
    }

    /// The reserve failures after one more pair of counts: the first start and the last end stay.
    pub open spec fn observe_failures(
        self,
        first: bool,
        start: Option<u64>,
        end: Option<u64>,
    ) -> CaptureState {
        CaptureState {
            failures_start: if first {
                start
            } else {
                self.failures_start
            },
            failures_end: end,
            ..self
        }
    }

    pub open spec fn count(self, fragments: u64) -> CaptureState {
        CaptureState { fragment_count: saturating_sum(self.fragment_count, fragments), ..self }
    }

    /// Incomplete from here on, unless all was known.
    pub open spec fn complete_if(self, known: bool) -> CaptureState {
        CaptureState { metadata_complete: self.metadata_complete && known, ..self }
    }

    /// After one capture.
    pub open spec fn observe_fragment(self, f: Fragment) -> CaptureState {
        self.begun().count(1).observe_identity(
            f.transport_handle,
            f.process_start_ns,
            f.tls_library,
            true,
        ).observe_range(f.seq, f.seq).add_lengths(
            f.original_len,
            f.captured_len,
        ).observe_truncation(f.truncated, f.bytes_lost).observe_failures(
            self.fragment_count == 0,
            f.failures,
            f.failures,
        ).observe_tid(f.tid).complete_if(
            f.transport_handle is Some && f.process_start_ns is Some && f.tls_library is Some
                && f.seq is Some && f.failures is Some && f.tid is Some,
        )
    }

    /// After a summary of earlier observations.
    pub open spec fn observe_summary(self, r: Report) -> CaptureState {
        let fragments = match r.fragment_count {
            Some(n) => n,
            None => 1,
        };
        self.begun().count(fragments).observe_identity(
            r.transport_handle,
            r.process_start_ns,
            r.tls_library,
            r.identity_consistent,
        ).observe_range(r.seq_start, r.seq_end).add_lengths(
            r.original_len,
            r.captured_len,
        ).observe_truncation(r.truncated, r.bytes_lost).observe_failures(
            self.fragment_count == 0,
            r.failures_start,
            r.failures_end,
        ).observe_tids(r.tids, r.tid_count, r.tids_truncated).complete_if(
            r.fragment_count is Some && r.metadata_complete,
        )
    }

    /// After an event with this data. One that counts fragments carries a summary.
    pub open spec fn observe(self, data: Json) -> CaptureState {
        if data.field("capture_fragment_count"@) is Some {
            self.observe_summary(report_in(data))
        } else {
            self.observe_fragment(fragment_in(data))
        }
    }

    /// No observation contradicted another about who was captured.
    pub open spec fn one_identity(self) -> bool {
        self.identity_consistent && !self.transport_handle.conflicted
            && !self.process_start_ns.conflicted && !self.tls_library.conflicted
    }

    /// The summary of what was observed.
    pub open spec fn summary(self) -> CaptureSummary {
        let all = ordered::ascending(self.tids);
        let listed = if all.len() > MAX_CAPTURE_TIDS {
            all.take(MAX_CAPTURE_TIDS as int)
        } else {
            all
        };
        let count = saturating_sum(self.tids.len() as u64, self.unlisted_tid_count);
        CaptureSummary {
            transport_handle: if self.one_identity() {
                self.transport_handle.result()
            } else {
                None
            },
            process_start_ns: if self.one_identity() {
                self.process_start_ns.result()
            } else {
                None
            },
            tls_library: if self.one_identity() {
                self.tls_library.result()
            } else {
                None
            },
            capture_seq_start: if self.seq_complete {
                self.seq_start
            } else {
                None
            },
            capture_seq_end: if self.seq_complete {
                self.seq_end
            } else {
                None
            },
            capture_fragment_count: self.fragment_count,
            capture_original_len: if self.lengths_complete {
                self.original_len
            } else {
                None
            },
            capture_captured_len: if self.lengths_complete {
                self.captured_len
            } else {
                None
            },
            capture_truncated: if self.saw_truncated {
                Some(true)
            } else if self.saw_unknown_truncation {
                None
            } else {
                Some(false)
            },
            capture_bytes_lost: if self.bytes_lost_complete {
                self.bytes_lost
            } else {
                None
            },
            ringbuf_reserve_failures_start: self.failures_start,
            ringbuf_reserve_failures_end: self.failures_end,
            ringbuf_reserve_failures_delta: match (self.failures_start, self.failures_end) {
                (Some(first), Some(last)) => Some(
                    if last > first {
                        (last - first) as u64
                    } else {
                        0
                    },
                ),
                _ => None,
            },
            capture_tids: listed,
            capture_tid_count: count,
            capture_tids_truncated: self.tids_truncated || count > listed.len(),
            capture_identity_consistent: self.one_identity(),
            capture_metadata_complete: self.metadata_complete,
        }
    }
}

/// Values that observations are held against each other by.
pub trait Observable: View + Sized {
    fn same(&self, other: &Self) -> (r: bool)
        ensures
            r == (self@ == other@),
    ;

    fn copied(&self) -> (r: Self)
        ensures
            r@ == self@,
    ;
}

impl Observable for u64 {
    fn same(&self, other: &u64) -> (r: bool) {
        *self == *other
    }

    fn copied(&self) -> (r: u64) {
        *self
    }
}

impl Observable for String {
    fn same(&self, other: &String) -> (r: bool) {
        text::same(self.as_str(), other.as_str())
    }

    fn copied(&self) -> (r: String) {
        self.clone()
    }
}

pub struct ConsistentValue<T: Observable> {
    value: Option<T>,
    conflicted: bool,
}

/// The view of a value that may be absent.
pub open spec fn option_view<T: View>(value: Option<T>) -> Option<T::V> {
    match value {
        Some(v) => Some(v@),
        None => None,
    }
}

impl<T: Observable> View for ConsistentValue<T> {
    type V = Consistent<T::V>;

    closed spec fn view(&self) -> Consistent<T::V> {
        Consistent { value: option_view(self.value), conflicted: self.conflicted }
    }
}

impl<T: Observable> ConsistentValue<T> {
    pub fn unseen() -> (r: Self)
        ensures
            r@ == Consistent::<T::V>::unseen(),
    {
        ConsistentValue { value: None, conflicted: false }
    }

    /// Takes one more observation; one without a value says nothing.
    pub fn observe(&mut self, value: Option<T>)
        ensures
            final(self)@ == old(self)@.observe(option_view(value)),
    {
        if let Some(value) = value {
            match &self.value {
                None => {
                    self.value = Some(value);
                },
                Some(existing) => {
                    if !existing.same(&value) {
                        self.conflicted = true;
                    }
                },
            }
        }
    }

    pub fn invalidate(&mut self)
        ensures
            final(self)@ == old(self)@.invalidate(),
    {
        self.conflicted = true;
    }

    pub fn is_conflicted(&self) -> (r: bool)
        ensures
            r == self@.conflicted,
    {
        self.conflicted
    }

    /// The value, where all observations agree on one.
    pub fn result(&self) -> (r: Option<T>)
        ensures
            option_view(r) == self@.result(),
    {
        if self.conflicted {
            return None;
        }
        match &self.value {
            Some(value) => Some(value.copied()),
            None => None,
        }
    }
}

impl<T: Observable> Clone for ConsistentValue<T> {
    fn clone(&self) -> (r: Self)
        ensures
            r@ == self@,
    {
        ConsistentValue {
            value: match &self.value {
                Some(value) => Some(value.copied()),
                None => None,
            },
            conflicted: self.conflicted,
        }
    }
}

/// The running total with one number more.
fn checked_sum(current: Option<u64>, value: u64) -> (r: Option<u64>)
    ensures
        r == total(current, value),
{
    let before: u64 = match current {
        Some(n) => n,
        None => 0,
    };
    before.checked_add(value)
}

/// Reads a number, given as a number or as its digits.
pub fn value_as_u64(value: Option<&JsonValue>) -> (r: Option<u64>)
    ensures
        r == number_of(option_view(value)),
{
    match value {
        Some(JsonValue::Unsigned(n)) => Some(*n),
        Some(JsonValue::Text(s)) => {
            let digits: Vec<char> = text::chars(s.as_str());
            text::number(digits.as_slice(), u64::MAX)
        },
        _ => None,
    }
}

/// Reads a text, given as a text or as a number.
pub fn value_as_string(value: Option<&JsonValue>) -> (r: Option<String>)
    ensures
        option_view(r) == text_of(option_view(value)),
{
    match value {
        Some(JsonValue::Text(s)) => Some(s.clone()),
        Some(JsonValue::Unsigned(n)) => Some(text::digits(*n)),
        Some(JsonValue::Negative(n)) => {
            if *n < 0 {
                let mut out: String = text::owned("-");
                let size: String = text::digits((-(*n as i128)) as u64);
                text::push_str(&mut out, size.as_str());
                proof {
                    reveal_strlit("-");
                    assert("-"@ =~= seq!['-']);
                }
                Some(out)
            } else {
                Some(text::digits(*n as u64))
            }
        },
        Some(JsonValue::Float(s)) => Some(s.clone()),
        _ => None,
    }
}

/// The numbers in the list that a value is.
fn value_as_numbers(value: Option<&JsonValue>) -> (r: Vec<u64>)
    ensures
        r@ == numbers_of(option_view(value)),
{
    let mut out: Vec<u64> = Vec::new();
    let items: &Vec<JsonValue> = match value {
        Some(v) => match v.as_array() {
            Some(items) => items,
            None => {
                return out;
            },
        },
        None => {
            return out;
        },
    };
    let mut i: usize = 0;
    while i < items.len()
        invariant
            i <= items@.len(),
            out@ == numbers_in(json::items_view(items@).take(i as int)),
        decreases items@.len() - i,
    {
        proof {
            let all = json::items_view(items@);
            assert(all.take(i + 1).drop_last() =~= all.take(i as int));
            assert(all.take(i + 1).last() == items@[i as int]@);
        }
        match value_as_u64(Some(&items[i])) {
            Some(n) => {
                out.push(n);
            },
            None => {},
        }
        i += 1;
    }
    assert(json::items_view(items@).take(i as int) =~= json::items_view(items@));
    out
}

/// Bounded provenance summary for events assembled from one or more capture events.
#[derive(Debug, PartialEq, Eq)]
pub struct CaptureMetadata {
    pub transport_handle: Option<String>,
    pub process_start_ns: Option<u64>,
    pub tls_library: Option<String>,
    pub capture_seq_start: Option<u64>,
    pub capture_seq_end: Option<u64>,
    pub capture_fragment_count: u64,
    pub capture_original_len: Option<u64>,
    pub capture_captured_len: Option<u64>,
    pub capture_truncated: Option<bool>,
    pub capture_bytes_lost: Option<u64>,
    pub ringbuf_reserve_failures_start: Option<u64>,
    pub ringbuf_reserve_failures_end: Option<u64>,
    pub ringbuf_reserve_failures_delta: Option<u64>,
    pub capture_tids: Vec<u64>,
    pub capture_tid_count: u64,
    pub capture_tids_truncated: bool,
    pub capture_identity_consistent: bool,
    pub capture_metadata_complete: bool,
}

impl View for CaptureMetadata {
    type V = CaptureSummary;

    open spec fn view(&self) -> CaptureSummary {
        CaptureSummary {
            transport_handle: option_view(self.transport_handle),
            process_start_ns: self.process_start_ns,
            tls_library: option_view(self.tls_library),
            capture_seq_start: self.capture_seq_start,
            capture_seq_end: self.capture_seq_end,
            capture_fragment_count: self.capture_fragment_count,
            capture_original_len: self.capture_original_len,
            capture_captured_len: self.capture_captured_len,
            capture_truncated: self.capture_truncated,
            capture_bytes_lost: self.capture_bytes_lost,
            ringbuf_reserve_failures_start: self.ringbuf_reserve_failures_start,
            ringbuf_reserve_failures_end: self.ringbuf_reserve_failures_end,
            ringbuf_reserve_failures_delta: self.ringbuf_reserve_failures_delta,
            capture_tids: self.capture_tids@,
            capture_tid_count: self.capture_tid_count,
            capture_tids_truncated: self.capture_tids_truncated,
            capture_identity_consistent: self.capture_identity_consistent,
            capture_metadata_complete: self.capture_metadata_complete,
        }
    }
}

/// The summary of nothing: no value known, no contradiction, not complete.
pub open spec fn default_summary() -> CaptureSummary {
    CaptureSummary {
        transport_handle: None,
        process_start_ns: None,
        tls_library: None,
        capture_seq_start: None,
        capture_seq_end: None,
        capture_fragment_count: 0,
        capture_original_len: None,
        capture_captured_len: None,
        capture_truncated: None,
        capture_bytes_lost: None,
        ringbuf_reserve_failures_start: None,
        ringbuf_reserve_failures_end: None,
        ringbuf_reserve_failures_delta: None,
        capture_tids: Seq::empty(),
        capture_tid_count: 0,
        capture_tids_truncated: false,
        capture_identity_consistent: true,
        capture_metadata_complete: false,
    }
}

impl Default for CaptureMetadata {
    fn default() -> (r: CaptureMetadata)
        ensures
            r@ == default_summary(),
    {
        CaptureMetadata {
            transport_handle: None,
            process_start_ns: None,
            tls_library: None,
            capture_seq_start: None,
            capture_seq_end: None,
            capture_fragment_count: 0,
            capture_original_len: None,
            capture_captured_len: None,
            capture_truncated: None,
            capture_bytes_lost: None,
            ringbuf_reserve_failures_start: None,
            ringbuf_reserve_failures_end: None,
            ringbuf_reserve_failures_delta: None,
            capture_tids: Vec::new(),
            capture_tid_count: 0,
            capture_tids_truncated: false,
            capture_identity_consistent: true,
            capture_metadata_complete: false,
        }
    }
}

/// What the data of a capture says.
struct FragmentValues {
    transport_handle: Option<String>,
    process_start_ns: Option<u64>,
    tls_library: Option<String>,
    seq: Option<u64>,
    original_len: Option<u64>,
    captured_len: Option<u64>,
    truncated: Option<bool>,
    bytes_lost: Option<u64>,
    failures: Option<u64>,
    tid: Option<u64>,
}

impl View for FragmentValues {
    type V = Fragment;

    closed spec fn view(&self) -> Fragment {
        Fragment {
            transport_handle: option_view(self.transport_handle),
            process_start_ns: self.process_start_ns,
            tls_library: option_view(self.tls_library),
            seq: self.seq,
            original_len: self.original_len,
            captured_len: self.captured_len,
            truncated: self.truncated,
            bytes_lost: self.bytes_lost,
            failures: self.failures,
            tid: self.tid,
        }
    }
}

fn read_fragment(data: &JsonValue) -> (r: FragmentValues)
    ensures
        r@ == fragment_in(data@),
{
    FragmentValues {
        transport_handle: value_as_string(data.get("transport_handle")),
        process_start_ns: value_as_u64(data.get("process_start_ns")),
        tls_library: value_as_string(data.get("tls_library")),
        seq: value_as_u64(data.get("capture_seq")),
        original_len: value_as_u64(data.get("len")),
        captured_len: value_as_u64(data.get("buf_size")),
        truncated: data.get_bool("truncated"),
        bytes_lost: value_as_u64(data.get("bytes_lost")),
        failures: value_as_u64(data.get("ringbuf_reserve_failures")),
        tid: value_as_u64(data.get("tid")),
    }
}

/// What data that carries a summary says.
struct ReportValues {
    fragment_count: Option<u64>,
    transport_handle: Option<String>,
    process_start_ns: Option<u64>,
    tls_library: Option<String>,
    identity_consistent: bool,
    seq_start: Option<u64>,
    seq_end: Option<u64>,
    original_len: Option<u64>,
    captured_len: Option<u64>,
    truncated: Option<bool>,
    bytes_lost: Option<u64>,
    failures_start: Option<u64>,
    failures_end: Option<u64>,
    tids: Vec<u64>,
    tid_count: Option<u64>,
    tids_truncated: bool,
    metadata_complete: bool,
}

impl View for ReportValues {
    type V = Report;

    closed spec fn view(&self) -> Report {
        Report {
            fragment_count: self.fragment_count,
            transport_handle: option_view(self.transport_handle),
            process_start_ns: self.process_start_ns,
            tls_library: option_view(self.tls_library),
            identity_consistent: self.identity_consistent,
            seq_start: self.seq_start,
            seq_end: self.seq_end,
            original_len: self.original_len,
            captured_len: self.captured_len,
            truncated: self.truncated,
            bytes_lost: self.bytes_lost,
            failures_start: self.failures_start,
            failures_end: self.failures_end,
            tids: self.tids@,
            tid_count: self.tid_count,
            tids_truncated: self.tids_truncated,
            metadata_complete: self.metadata_complete,
        }
    }
}

fn read_report(data: &JsonValue) -> (r: ReportValues)
    ensures
        r@ == report_in(data@),
{
    ReportValues {
        fragment_count: value_as_u64(data.get("capture_fragment_count")),
        transport_handle: value_as_string(data.get("transport_handle")),
        process_start_ns: value_as_u64(data.get("process_start_ns")),
        tls_library: value_as_string(data.get("tls_library")),
        identity_consistent: is_true(data.get_bool("capture_identity_consistent")),
        seq_start: value_as_u64(data.get("capture_seq_start")),
        seq_end: value_as_u64(data.get("capture_seq_end")),
        original_len: value_as_u64(data.get("capture_original_len")),
        captured_len: value_as_u64(data.get("capture_captured_len")),
        truncated: data.get_bool("capture_truncated"),
        bytes_lost: value_as_u64(data.get("capture_bytes_lost")),
        failures_start: value_as_u64(data.get("ringbuf_reserve_failures_start")),
        failures_end: value_as_u64(data.get("ringbuf_reserve_failures_end")),
        tids: value_as_numbers(data.get("capture_tids")),
        tid_count: value_as_u64(data.get("capture_tid_count")),
        tids_truncated: is_true(data.get_bool("capture_tids_truncated")),
        metadata_complete: is_true(data.get_bool("capture_metadata_complete")),
    }
}

/// Observes events and sums them up.
pub struct CaptureMetadataAccumulator {
    transport_handle: ConsistentValue<String>,
    process_start_ns: ConsistentValue<u64>,
    tls_library: ConsistentValue<String>,
    capture_seq_start: Option<u64>,
    capture_seq_end: Option<u64>,
    capture_seq_complete: bool,
    capture_fragment_count: u64,
    capture_original_len: Option<u64>,
    capture_captured_len: Option<u64>,
    capture_lengths_complete: bool,
    saw_truncated: bool,
    saw_unknown_truncation: bool,
    capture_bytes_lost: Option<u64>,
    capture_bytes_lost_complete: bool,
    ringbuf_reserve_failures_start: Option<u64>,
    ringbuf_reserve_failures_end: Option<u64>,
    capture_tids: BTreeSet<u64>,
    unlisted_tid_count: u64,
    capture_tids_truncated: bool,
    identity_consistent: bool,
    metadata_complete: bool,
}

impl View for CaptureMetadataAccumulator {
    type V = CaptureState;

    closed spec fn view(&self) -> CaptureState {
        CaptureState {
            transport_handle: self.transport_handle@,
            process_start_ns: self.process_start_ns@,
            tls_library: self.tls_library@,
            seq_start: self.capture_seq_start,
            seq_end: self.capture_seq_end,
            seq_complete: self.capture_seq_complete,
            fragment_count: self.capture_fragment_count,
            original_len: self.capture_original_len,
            captured_len: self.capture_captured_len,
            lengths_complete: self.capture_lengths_complete,
            saw_truncated: self.saw_truncated,
            saw_unknown_truncation: self.saw_unknown_truncation,
            bytes_lost: self.capture_bytes_lost,
            bytes_lost_complete: self.capture_bytes_lost_complete,
            failures_start: self.ringbuf_reserve_failures_start,
            failures_end: self.ringbuf_reserve_failures_end,
            tids: self.capture_tids@,
            unlisted_tid_count: self.unlisted_tid_count,
            tids_truncated: self.capture_tids_truncated,
            identity_consistent: self.identity_consistent,
            metadata_complete: self.metadata_complete,
        }
    }
}

impl Default for CaptureMetadataAccumulator {
    fn default() -> (r: CaptureMetadataAccumulator)
        ensures
            r@ == CaptureState::empty(),
    {
        CaptureMetadataAccumulator {
            transport_handle: ConsistentValue::unseen(),
            process_start_ns: ConsistentValue::unseen(),
            tls_library: ConsistentValue::unseen(),
            capture_seq_start: None,
            capture_seq_end: None,
            capture_seq_complete: false,
            capture_fragment_count: 0,
            capture_original_len: None,
            capture_captured_len: None,
            capture_lengths_complete: false,
            saw_truncated: false,
            saw_unknown_truncation: false,
            capture_bytes_lost: None,
            capture_bytes_lost_complete: false,
            ringbuf_reserve_failures_start: None,
            ringbuf_reserve_failures_end: None,
            capture_tids: BTreeSet::new(),
            unlisted_tid_count: 0,
            capture_tids_truncated: false,
            identity_consistent: false,
            metadata_complete: false,
        }
    }
}

impl Clone for CaptureMetadataAccumulator {
    fn clone(&self) -> (r: CaptureMetadataAccumulator)
        ensures
            r@ == self@,
    {
        CaptureMetadataAccumulator {
            transport_handle: self.transport_handle.clone(),
            process_start_ns: self.process_start_ns.clone(),
            tls_library: self.tls_library.clone(),
            capture_seq_start: self.capture_seq_start,
            capture_seq_end: self.capture_seq_end,
            capture_seq_complete: self.capture_seq_complete,
            capture_fragment_count: self.capture_fragment_count,
            capture_original_len: self.capture_original_len,
            capture_captured_len: self.capture_captured_len,
            capture_lengths_complete: self.capture_lengths_complete,
            saw_truncated: self.saw_truncated,
            saw_unknown_truncation: self.saw_unknown_truncation,
            capture_bytes_lost: self.capture_bytes_lost,
            capture_bytes_lost_complete: self.capture_bytes_lost_complete,
            ringbuf_reserve_failures_start: self.ringbuf_reserve_failures_start,
            ringbuf_reserve_failures_end: self.ringbuf_reserve_failures_end,
            capture_tids: self.capture_tids.clone(),
            unlisted_tid_count: self.unlisted_tid_count,
            capture_tids_truncated: self.capture_tids_truncated,
            identity_consistent: self.identity_consistent,
            metadata_complete: self.metadata_complete,
        }
    }
}

impl CaptureMetadataAccumulator {
    /// Observes one event, a capture or the summary of some.
    pub fn observe_event(&mut self, event: &Event)
        ensures
            final(self)@ == old(self)@.observe(event@.data),
    {
        if event.data.get("capture_fragment_count").is_some() {
            self.observe_summary(read_report(&event.data));
        } else {
            self.observe_capture_fragment(read_fragment(&event.data));
        }
    }

    fn begin(&mut self)
        ensures
            final(self)@ == old(self)@.begun(),
    {
        if self.capture_fragment_count == 0 {
            self.capture_seq_complete = true;
            self.capture_lengths_complete = true;
            self.capture_bytes_lost_complete = true;
            self.identity_consistent = true;
            self.metadata_complete = true;
        }
    }

    fn observe_capture_fragment(&mut self, f: FragmentValues)
        ensures
            final(self)@ == old(self)@.observe_fragment(f@),
    {
        let first: bool = self.capture_fragment_count == 0;
        let known: bool = f.transport_handle.is_some() && f.process_start_ns.is_some()
            && f.tls_library.is_some() && f.seq.is_some() && f.failures.is_some()
            && f.tid.is_some();
        self.begin();
        self.count(1);
        self.observe_identity(f.transport_handle, f.process_start_ns, f.tls_library, true);
        self.observe_range(f.seq, f.seq);
        self.add_lengths(f.original_len, f.captured_len);
        self.observe_truncation(f.truncated, f.bytes_lost);
        self.observe_failures(first, f.failures, f.failures);
        self.observe_tid(f.tid);
        self.complete_if(known);
    }

    fn observe_summary(&mut self, r: ReportValues)
        ensures
            final(self)@ == old(self)@.observe_summary(r@),
    {
        let first: bool = self.capture_fragment_count == 0;
        self.begin();
        let fragments: u64 = match r.fragment_count {
            Some(n) => n,
            None => 1,
        };
        self.count(fragments);
        self.observe_identity(
            r.transport_handle,
            r.process_start_ns,
            r.tls_library,
            r.identity_consistent,
        );
        self.observe_range(r.seq_start, r.seq_end);
        self.add_lengths(r.original_len, r.captured_len);
        self.observe_truncation(r.truncated, r.bytes_lost);
        self.observe_failures(first, r.failures_start, r.failures_end);
        self.observe_tids(&r.tids, r.tid_count, r.tids_truncated);
        self.complete_if(r.fragment_count.is_some() && r.metadata_complete);
    }

    fn count(&mut self, fragments: u64)
        ensures
            final(self)@ == old(self)@.count(fragments),
    {
        self.capture_fragment_count = self.capture_fragment_count.saturating_add(fragments);
    }

    fn observe_identity(
        &mut self,
        transport_handle: Option<String>,
        process_start_ns: Option<u64>,
        tls_library: Option<String>,
        consistent: bool,
    )
        ensures
            final(self)@ == old(self)@.observe_identity(
                option_view(transport_handle),
                process_start_ns,
                option_view(tls_library),
                consistent,
            ),
    {
        self.transport_handle.observe(transport_handle);
        self.process_start_ns.observe(process_start_ns);
        self.tls_library.observe(tls_library);
        if !consistent {
            self.identity_consistent = false;
            self.transport_handle.invalidate();
            self.process_start_ns.invalidate();
            self.tls_library.invalidate();
        }
        assert(option_view(process_start_ns) == process_start_ns);
    }

    fn observe_tid(&mut self, tid: Option<u64>)
        ensures
            final(self)@ == old(self)@.observe_tid(tid),
    {
        match tid {
            Some(tid) => {
                self.capture_tids.insert(tid);
            },
            None => {},
        }
    }

    fn complete_if(&mut self, known: bool)
        ensures
            final(self)@ == old(self)@.complete_if(known),
    {
        if !known {
            self.metadata_complete = false;
        }
    }

    fn observe_failures(&mut self, first: bool, start: Option<u64>, end: Option<u64>)
        ensures
            final(self)@ == old(self)@.observe_failures(first, start, end),
    {
        if first {
            self.ringbuf_reserve_failures_start = start;
        }
        self.ringbuf_reserve_failures_end = end;
    }

    fn observe_range(&mut self, start: Option<u64>, end: Option<u64>)
        ensures
            final(self)@ == old(self)@.observe_range(start, end),
    {
        match (start, end) {
            (Some(start), Some(end)) => {
                let lowest: u64 = match self.capture_seq_start {
                    Some(n) => if n < start {
                        n
                    } else {
                        start
                    },
                    None => start,
                };
                let highest: u64 = match self.capture_seq_end {
                    Some(n) => if n > end {
                        n
                    } else {
                        end
                    },
                    None => end,
                };
                self.capture_seq_start = Some(lowest);
                self.capture_seq_end = Some(highest);
            },
            _ => {
                self.capture_seq_complete = false;
            },
        }
    }

    fn observe_tids(&mut self, tids: &Vec<u64>, tid_count: Option<u64>, truncated: bool)
        ensures
            final(self)@ == old(self)@.observe_tids(tids@, tid_count, truncated),
    {
        let ghost before = self@;
        let mut i: usize = 0;
        assert(before.tids.union(tids@.take(0).to_set()) =~= before.tids);
        while i < tids.len()
            invariant
                i <= tids@.len(),
                self@ == (CaptureState {
                    tids: before.tids.union(tids@.take(i as int).to_set()),
                    ..before
                }),
            decreases tids@.len() - i,
        {
            self.capture_tids.insert(tids[i]);
            proof {
                let shorter = tids@.take(i as int);
                let longer = tids@.take(i + 1);
                assert(longer =~= shorter.push(tids@[i as int]));
                assert(before.tids.union(longer.to_set()) =~= before.tids.union(
                    shorter.to_set(),
                ).insert(tids@[i as int])) by {
                    assert forall|x: u64| longer.contains(x) <==> shorter.contains(x) || x
                        == tids@[i as int] by {
                        if shorter.contains(x) {
                            let k = choose|k: int| 0 <= k < shorter.len() && shorter[k] == x;
                            assert(longer[k] == x);
                        }
                        assert(longer[i as int] == tids@[i as int]);
                    }
                }
            }
            i += 1;
        }
        assert(tids@.take(i as int) =~= tids@);
        let listed: u64 = tids.len() as u64;
        let unlisted: u64 = match tid_count {
            Some(n) => n.saturating_sub(listed),
            None => 0,
        };
        if unlisted > self.unlisted_tid_count {
            self.unlisted_tid_count = unlisted;
        }
        if truncated {
            self.capture_tids_truncated = true;
        }
    }

    fn add_lengths(&mut self, original_len: Option<u64>, captured_len: Option<u64>)
        ensures
            final(self)@ == old(self)@.add_lengths(original_len, captured_len),
    {
        match (original_len, captured_len) {
            (Some(original_len), Some(captured_len)) => {
                self.capture_original_len = checked_sum(self.capture_original_len, original_len);
                self.capture_captured_len = checked_sum(self.capture_captured_len, captured_len);
                if self.capture_original_len.is_none() || self.capture_captured_len.is_none() {
                    self.capture_lengths_complete = false;
                    self.metadata_complete = false;
                }
            },
            _ => {
                self.capture_lengths_complete = false;
                self.metadata_complete = false;
            },
        }
    }

    fn observe_truncation(&mut self, truncated: Option<bool>, bytes_lost: Option<u64>)
        ensures
            final(self)@ == old(self)@.observe_truncation(truncated, bytes_lost),
    {
        match truncated {
            Some(true) => {
                self.saw_truncated = true;
                match bytes_lost {
                    Some(bytes_lost) => {
                        self.capture_bytes_lost = checked_sum(self.capture_bytes_lost, bytes_lost);
                        if self.capture_bytes_lost.is_none() {
                            self.capture_bytes_lost_complete = false;
                            self.metadata_complete = false;
                        }
                    },
                    None => {
                        self.capture_bytes_lost_complete = false;
                        self.metadata_complete = false;
                    },
                }
            },
            Some(false) => {
                self.capture_bytes_lost = checked_sum(self.capture_bytes_lost, 0);
            },
            None => {
                self.saw_unknown_truncation = true;
                self.capture_bytes_lost_complete = false;
                self.metadata_complete = false;
            },
        }
    }

    /// The summary of all that was observed.
    pub fn finish(&self) -> (r: CaptureMetadata)
        ensures
            r@ == self@.summary(),
            self@.tids.len() <= u64::MAX,
    {
        let identity_consistent: bool = self.identity_consistent
            && !self.transport_handle.is_conflicted() && !self.process_start_ns.is_conflicted()
            && !self.tls_library.is_conflicted();
        let mut capture_tids: Vec<u64> = ordered::sorted(&self.capture_tids);
        if capture_tids.len() > MAX_CAPTURE_TIDS {
            capture_tids.truncate(MAX_CAPTURE_TIDS);
        }
        let capture_tid_count: u64 = (self.capture_tids.len() as u64).saturating_add(
            self.unlisted_tid_count,
        );
        let capture_tids_truncated: bool = self.capture_tids_truncated || capture_tid_count
            > capture_tids.len() as u64;
        let ringbuf_reserve_failures_delta: Option<u64> = match (
            self.ringbuf_reserve_failures_start,
            self.ringbuf_reserve_failures_end,
        ) {
            (Some(start), Some(end)) => Some(end.saturating_sub(start)),
            _ => None,
        };

        CaptureMetadata {
            transport_handle: if identity_consistent {
                self.transport_handle.result()
            } else {
                None
            },
            process_start_ns: if identity_consistent {
                self.process_start_ns.result()
            } else {
                None
            },
            tls_library: if identity_consistent {
                self.tls_library.result()
            } else {
                None
            },
            capture_seq_start: if self.capture_seq_complete {
                self.capture_seq_start
            } else {
                None
            },
            capture_seq_end: if self.capture_seq_complete {
                self.capture_seq_end
            } else {
                None
            },
            capture_fragment_count: self.capture_fragment_count,
            capture_original_len: if self.capture_lengths_complete {
                self.capture_original_len
            } else {
                None
            },
            capture_captured_len: if self.capture_lengths_complete {
                self.capture_captured_len
            } else {
                None
            },
            capture_truncated: if self.saw_truncated {
                Some(true)
            } else if self.saw_unknown_truncation {
                None
            } else {
                Some(false)
            },
            capture_bytes_lost: if self.capture_bytes_lost_complete {
                self.capture_bytes_lost
            } else {
                None
            },
            ringbuf_reserve_failures_start: self.ringbuf_reserve_failures_start,
            ringbuf_reserve_failures_end: self.ringbuf_reserve_failures_end,
            ringbuf_reserve_failures_delta,
            capture_tids,
            capture_tid_count,
            capture_tids_truncated,
            capture_identity_consistent: identity_consistent,
            capture_metadata_complete: self.metadata_complete,
        }
    }
}

fn is_true(value: Option<bool>) -> (r: bool)
    ensures
        r == (value == Some(true)),
{
    match value {
        Some(b) => b,
        None => false,
    }
}

} // verus!
