//! Time-windowed latency histograms: samples accumulate into an open
//! histogram, which is closed once it has been open for a full window and is
//! kept, with its offset and duration, for the performance logs.
//!
//! Times are nanoseconds since the Unix epoch.

use hdrhistogram::serialization::{Serializer, V2DeflateSerializeError, V2DeflateSerializer};
use hdrhistogram::{CreationError, Histogram, RecordError};
use vstd::prelude::*;

verus! {

/// An hdrhistogram `Histogram<u64>` of latency samples; what the library
/// knows of it is its sample count and its highest trackable value. The
/// field is private and only `new_histogram` builds one, so auto-resize is
/// never on; it leaves the library only as its encoding (`encoded`).
#[verifier::external_body]
pub struct LatencyHistogram {
    inner: Histogram<u64>,
}

/// hdrhistogram's `V2DeflateSerializeError`, carried opaquely.
#[verifier::external_type_specification]
#[verifier::external_body]
pub struct ExV2DeflateSerializeError(V2DeflateSerializeError);

/// The V2-deflate serialization of a histogram, as hdrhistogram writes it.
pub uninterp spec fn deflate_encoding(h: LatencyHistogram) -> Seq<u8>;

/// Relies on hdrhistogram's `V2DeflateSerializer::serialize`: on success the
/// bytes written are the histogram's V2-deflate encoding, which depends on
/// the histogram alone. Into a `Vec` it fails only on a count that does not
/// fit an `i64`, which no bucket has while the total count fits.
#[verifier::external_body]
fn serialize_deflate(h: &LatencyHistogram) -> (r: Result<Vec<u8>, V2DeflateSerializeError>)
    ensures
        r is Ok ==> r->Ok_0@ == deflate_encoding(*h),
        histogram_len(*h) <= i64::MAX ==> r is Ok,
{
    let mut buf: Vec<u8> = Vec::new();
    V2DeflateSerializer::new().serialize(&h.inner, &mut buf).map(|_| buf)
}

/// hdrhistogram's `CreationError`, carried opaquely.
#[verifier::external_type_specification]
#[verifier::external_body]
pub struct ExCreationError(CreationError);

/// hdrhistogram's `RecordError`, carried opaquely.
#[verifier::external_type_specification]
#[verifier::external_body]
pub struct ExRecordError(RecordError);

/// The number of samples recorded in a histogram.
pub uninterp spec fn histogram_len(h: LatencyHistogram) -> nat;

/// The highest value a histogram was built to track.
pub uninterp spec fn histogram_high(h: LatencyHistogram) -> u64;

/// The lowest value a histogram tells apart from zero.
pub uninterp spec fn histogram_low(h: LatencyHistogram) -> u64;

/// The significant figures a histogram keeps.
pub uninterp spec fn histogram_sigfig(h: LatencyHistogram) -> u8;

/// The count of samples recorded at `v`, to within the histogram's
/// resolution.
pub uninterp spec fn histogram_count_at(h: LatencyHistogram, v: u64) -> u64;

/// `after` is `before` with one more sample of `value`; counts saturate.
pub open spec fn recorded(before: LatencyHistogram, after: LatencyHistogram, value: u64) -> bool {
    &&& histogram_len(after) == bump(histogram_len(before))
    &&& histogram_count_at(after, value) as nat == bump(histogram_count_at(before, value) as nat)
    &&& histogram_low(after) == histogram_low(before)
    &&& histogram_high(after) == histogram_high(before)
    &&& histogram_sigfig(after) == histogram_sigfig(before)
}

/// Relies on hdrhistogram's `Histogram::new_with_bounds`: it fails unless
/// `low >= 1`, `high >= 2 * low` and `sigfig <= 5`; with `low == 1` those are
/// also enough. A new histogram has no samples (every count is zero) and
/// keeps the bounds it was given.
#[verifier::external_body]
fn new_histogram(low: u64, high: u64, sigfig: u8) -> (r: Result<LatencyHistogram, CreationError>)
    ensures
        r is Ok ==> low >= 1 && high >= 2 * low && sigfig <= 5,
        r is Ok ==> histogram_len(r->Ok_0) == 0 && histogram_low(r->Ok_0) == low
            && histogram_high(r->Ok_0) == high && histogram_sigfig(r->Ok_0) == sigfig,
        r is Ok ==> forall|v: u64| #[trigger] histogram_count_at(r->Ok_0, v) == 0,
        low == 1 && high >= 2 && sigfig <= 5 ==> r is Ok,
{
    Histogram::<u64>::new_with_bounds(low, high, sigfig).map(|inner| LatencyHistogram { inner })
}

/// Relies on hdrhistogram's `Histogram::record` on a histogram without
/// auto-resize (every `LatencyHistogram` comes from `new_histogram`, which
/// builds it with `new_with_bounds`, and its field is private): a value up to
/// the tracked maximum is always recorded, adding one (saturating) to the
/// sample count and to the count of the value's bucket, which `count_at`
/// reads; the bounds stay. On failure nothing changes.
#[verifier::external_body]
fn record_value(h: &mut LatencyHistogram, value: u64) -> (r: Result<(), RecordError>)
    ensures
        value <= histogram_high(*old(h)) ==> r is Ok,
        r is Ok ==> histogram_len(*final(h)) == bump(histogram_len(*old(h))),
        r is Ok ==> histogram_count_at(*final(h), value) as nat == bump(
            histogram_count_at(*old(h), value) as nat,
        ),
        r is Ok ==> histogram_low(*final(h)) == histogram_low(*old(h)) && histogram_high(
            *final(h),
        ) == histogram_high(*old(h)) && histogram_sigfig(*final(h)) == histogram_sigfig(*old(h)),
        r is Err ==> *final(h) == *old(h),
{
    h.inner.record(value)
}

/// A sample count after one more sample; the count saturates.
pub open spec fn bump(n: nat) -> nat {
    if n < u64::MAX {
        n + 1
    } else {
        n
    }
}

/// How long a histogram stays open: one minute.
pub const WINDOW_NS: u64 = 60_000_000_000;

/// Why a sample could not be recorded.
#[derive(Debug, Clone, Copy, PartialEq, Eq)]
pub enum HistogramError {
    /// The histogram bounds are invalid (`high < 2` or `sigfig > 5`).
    InvalidBounds,
    /// The value exceeds the highest trackable value.
    ValueOutOfRange,
}

/// Why a histogram could not be closed into an interval.
#[derive(Debug, Clone, Copy, PartialEq, Eq)]
pub enum TimeOrderError {
    /// The histogram started before the file start time.
    StartBeforeFileStart,
    /// The end time precedes the histogram's start time.
    EndBeforeStart,
}

/// A closed histogram, with its start relative to the file start time and
/// how long it was open.
pub struct IntervalHistogram {
    pub histogram: LatencyHistogram,
    pub start_offset_ns: u64,
    pub duration_ns: u64,
}

/// A histogram still accumulating samples, with the time it was opened.
pub struct StartedHistogram {
    pub histogram: LatencyHistogram,
    pub start_ns: u64,
}

/// Whether a histogram opened at `start` has been open a full window at `now`.
pub open spec fn window_full(start: u64, now: u64) -> bool {
    start <= now && now - start >= WINDOW_NS
}

/// The opening time of the histogram that is open after a sample at `now`,
/// given the opening time of the one open before it.
pub open spec fn next_open_start(cur: Option<u64>, now: u64) -> Option<u64> {
    match cur {
        None => Some(now),
        Some(s) => if window_full(s, now) {
            None
        } else {
            Some(s)
        },
    }
}

/// A histogram that has been open a full window when a sample arrives is
/// closed by that sample, and the next sample opens a new one at its own
/// time; one open for less than a window stays open.
pub proof fn lemma_window_closes_then_reopens(start: u64, now: u64, next: u64)
    requires
        start <= now,
    ensures
        now - start >= WINDOW_NS ==> next_open_start(Some(start), now) is None
            && next_open_start(next_open_start(Some(start), now), next) == Some(next),
        now - start < WINDOW_NS ==> next_open_start(Some(start), now) == Some(start),
{
}

/// The opening time of the open histogram, if any.
pub open spec fn open_start(store: Option<StartedHistogram>) -> Option<u64> {
    match store {
        None => None,
        Some(h) => Some(h.start_ns),
    }
}

/// The closed interval that a histogram opened at `start` becomes at `end`,
/// as (offset from file start, duration); none when the times are out of order.
pub open spec fn closed_interval(start: u64, file_start: u64, end: u64) -> Option<(u64, u64)> {
    if file_start <= start && start <= end {
        Some(((start - file_start) as u64, (end - start) as u64))
    } else {
        None
    }
}

impl LatencyHistogram {
    /// The histogram in hdrhistogram's V2-deflate encoding, the form the
    /// interval log stores; none if serialization failed, which needs more
    /// samples than an `i64` counts.
    pub fn encoded(&self) -> (r: Option<Vec<u8>>)
        ensures
            r matches Some(b) ==> b@ == deflate_encoding(*self),
            histogram_len(*self) <= i64::MAX ==> r is Some,
    {
        match serialize_deflate(self) {
            Ok(b) => Some(b),
            Err(_) => None,
        }
    }
}

impl StartedHistogram {
    /// Close this histogram at `end_ns`.
    pub fn end(self, file_start_ns: u64, end_ns: u64) -> (r: Result<IntervalHistogram, TimeOrderError>)
        ensures
            self.start_ns < file_start_ns ==> r == Err::<IntervalHistogram, _>(
                TimeOrderError::StartBeforeFileStart,
            ),
            file_start_ns <= self.start_ns && end_ns < self.start_ns ==> r == Err::<
                IntervalHistogram,
                _,
            >(TimeOrderError::EndBeforeStart),
            closed_interval(self.start_ns, file_start_ns, end_ns) is Some ==> (r matches Ok(ih)
                && ih.histogram == self.histogram && (ih.start_offset_ns, ih.duration_ns)
                == closed_interval(self.start_ns, file_start_ns, end_ns)->Some_0),
    {
        if self.start_ns < file_start_ns {
            return Err(TimeOrderError::StartBeforeFileStart);
        }
        if end_ns < self.start_ns {
            return Err(TimeOrderError::EndBeforeStart);
        }
        Ok(
            IntervalHistogram {
                histogram: self.histogram,
                start_offset_ns: self.start_ns - file_start_ns,
                duration_ns: end_ns - self.start_ns,
            },
        )
    }
}

/// Close the open histogram, if any, at `now_ns` and keep it; one whose
/// times are out of order is dropped.
pub fn finish_histogram(
    hist_store: &mut Option<StartedHistogram>,
    file_start_ns: u64,
    histograms: &mut Vec<IntervalHistogram>,
    now_ns: u64,
)
    ensures
        *final(hist_store) is None,
        match *old(hist_store) {
            Some(h) => match closed_interval(h.start_ns, file_start_ns, now_ns) {
                Some(t) => final(histograms)@ == old(histograms)@.push(
                    (IntervalHistogram { histogram: h.histogram, start_offset_ns: t.0, duration_ns: t.1 }),
                ),
                None => final(histograms)@ == old(histograms)@,
            },
            None => final(histograms)@ == old(histograms)@,
        },
{
    if let Some(hist) = hist_store.take() {
        if let Ok(h) = hist.end(file_start_ns, now_ns) {
            histograms.push(h);
        }
    }
}

/// Record `value` at time `now_ns`.
///
/// With no histogram open, a new one tracking `1..=high` with `sigfig`
/// significant figures is opened at `now_ns`; `high` and `sigfig` are read
/// only then. A sample dated before the open histogram's start is dropped.
/// Once the open histogram has been open a full window, the sample is
/// recorded into it and it is closed; the next sample opens a new one. A
/// value the histogram cannot track is refused and changes nothing.
pub fn histogram_record(
    value: u64,
    hist_store: &mut Option<StartedHistogram>,
    high: u64,
    sigfig: u8,
    file_start_ns: u64,
    histograms: &mut Vec<IntervalHistogram>,
    now_ns: u64,
) -> (r: Result<(), HistogramError>)
    ensures
        (*old(hist_store) is None && (high < 2 || sigfig > 5)) <==> r == Err::<(), _>(
            HistogramError::InvalidBounds,
        ),
        r is Err ==> *final(hist_store) == *old(hist_store) && final(histograms)@ == old(
            histograms,
        )@,
        r == Err::<(), _>(HistogramError::ValueOutOfRange) ==> match *old(hist_store) {
            None => value > high,
            Some(h) => h.start_ns <= now_ns && value > histogram_high(h.histogram),
        },
        *old(hist_store) matches Some(h) && now_ns < h.start_ns ==> r is Ok && *final(hist_store)
            == *old(hist_store) && final(histograms)@ == old(histograms)@,
        r is Ok ==> open_start(*final(hist_store)) == next_open_start(
            open_start(*old(hist_store)),
            now_ns,
        ),
        r is Ok ==> match *old(hist_store) {
            None => (*final(hist_store) matches Some(g) && g.start_ns == now_ns
                && histogram_len(g.histogram) == 1 && histogram_count_at(g.histogram, value) == 1
                && histogram_low(g.histogram) == 1 && histogram_high(g.histogram) == high
                && histogram_sigfig(g.histogram) == sigfig && final(histograms)@ == old(
                histograms,
            )@),
            Some(h) => if now_ns < h.start_ns {
                true
            } else if window_full(h.start_ns, now_ns) {
                match closed_interval(h.start_ns, file_start_ns, now_ns) {
                    Some(t) => {
                        let last = final(histograms)@.last();
                        &&& final(histograms)@ == old(histograms)@.push(last)
                        &&& last.start_offset_ns == t.0
                        &&& last.duration_ns == t.1
                        &&& recorded(h.histogram, last.histogram, value)
                    },
                    None => final(histograms)@ == old(histograms)@,
                }
            } else {
                (*final(hist_store) matches Some(g) && g.start_ns == h.start_ns && recorded(
                    h.histogram,
                    g.histogram,
                    value,
                ) && final(histograms)@ == old(histograms)@)
            },
        },
{
    let mut hist: StartedHistogram;
    let mut full: bool = false;
    match hist_store.take() {
        None => {
            if high < 2 || sigfig > 5 {
                return Err(HistogramError::InvalidBounds);
            }
            match new_histogram(1, high, sigfig) {
                Ok(h) => {
                    hist = StartedHistogram { histogram: h, start_ns: now_ns };
                },
                Err(_) => {
                    return Err(HistogramError::InvalidBounds);
                },
            }
            if record_value(&mut hist.histogram, value).is_err() {
                return Err(HistogramError::ValueOutOfRange);
            }
        },
        Some(h) => {
            hist = h;
            if now_ns < hist.start_ns {
                *hist_store = Some(hist);
                return Ok(());
            }
            full = now_ns - hist.start_ns >= WINDOW_NS;
            if record_value(&mut hist.histogram, value).is_err() {
                *hist_store = Some(hist);
                return Err(HistogramError::ValueOutOfRange);
            }
        },
    }
    *hist_store = Some(hist);
    if full {
        finish_histogram(hist_store, file_start_ns, histograms, now_ns);
    }
    Ok(())
}

} // verus!
