use flydra2::histogram::{
    finish_histogram, histogram_record, HistogramError, IntervalHistogram, LatencyHistogram,
    StartedHistogram, TimeOrderError, WINDOW_NS,
};
use hdrhistogram::serialization::Deserializer;
use hdrhistogram::Histogram;

fn decoded(h: &LatencyHistogram) -> Histogram<u64> {
    let bytes = h.encoded().unwrap();
    Deserializer::new().deserialize(&mut bytes.as_slice()).unwrap()
}

const SEC: u64 = 1_000_000_000;
const HIGH: u64 = 60 * 1_000_000;

#[test]
fn histogram_closes_after_sixty_seconds_and_reopens_on_next_sample() {
    let file_start = 1_000 * SEC;
    let t0 = file_start + 5 * SEC;
    let mut store: Option<StartedHistogram> = None;
    let mut done: Vec<IntervalHistogram> = Vec::new();

    histogram_record(10, &mut store, HIGH, 2, file_start, &mut done, t0).unwrap();
    assert_eq!(store.as_ref().unwrap().start_ns, t0);
    assert_eq!(decoded(&store.as_ref().unwrap().histogram).len(), 1);

    histogram_record(20, &mut store, HIGH, 2, file_start, &mut done, t0 + 59 * SEC).unwrap();
    assert!(store.is_some());
    assert!(done.is_empty());
    assert_eq!(decoded(&store.as_ref().unwrap().histogram).len(), 2);

    // Exactly one window after opening: recorded, then closed.
    histogram_record(30, &mut store, HIGH, 2, file_start, &mut done, t0 + WINDOW_NS).unwrap();
    assert!(store.is_none());
    assert_eq!(done.len(), 1);
    assert_eq!(done[0].start_offset_ns, 5 * SEC);
    assert_eq!(done[0].duration_ns, 60 * SEC);
    assert_eq!(decoded(&done[0].histogram).len(), 3);

    // The next sample opens a new histogram at its own time.
    let t1 = t0 + WINDOW_NS + 1;
    histogram_record(40, &mut store, HIGH, 2, file_start, &mut done, t1).unwrap();
    assert_eq!(store.as_ref().unwrap().start_ns, t1);
    assert_eq!(decoded(&store.as_ref().unwrap().histogram).len(), 1);
    assert_eq!(done.len(), 1);
}

#[test]
fn histogram_drops_sample_dated_before_open_histogram() {
    let mut store: Option<StartedHistogram> = None;
    let mut done: Vec<IntervalHistogram> = Vec::new();
    histogram_record(10, &mut store, HIGH, 2, 0, &mut done, 100 * SEC).unwrap();
    histogram_record(10, &mut store, HIGH, 2, 0, &mut done, 99 * SEC).unwrap();
    assert_eq!(store.as_ref().unwrap().start_ns, 100 * SEC);
    assert_eq!(decoded(&store.as_ref().unwrap().histogram).len(), 1);
}

#[test]
fn histogram_rejects_invalid_bounds() {
    let mut store: Option<StartedHistogram> = None;
    let mut done: Vec<IntervalHistogram> = Vec::new();
    assert_eq!(
        histogram_record(1, &mut store, 1, 2, 0, &mut done, 0),
        Err(HistogramError::InvalidBounds)
    );
    assert_eq!(
        histogram_record(1, &mut store, HIGH, 6, 0, &mut done, 0),
        Err(HistogramError::InvalidBounds)
    );
    assert!(store.is_none());
}

#[test]
fn histogram_drops_value_above_range_and_changes_nothing() {
    let mut store: Option<StartedHistogram> = None;
    let mut done: Vec<IntervalHistogram> = Vec::new();
    assert_eq!(
        histogram_record(u64::MAX, &mut store, 1000, 2, 0, &mut done, 0),
        Err(HistogramError::ValueOutOfRange)
    );
    assert!(store.is_none());
    histogram_record(5, &mut store, 1000, 2, 0, &mut done, 0).unwrap();
    assert_eq!(
        histogram_record(u64::MAX, &mut store, 1000, 2, 0, &mut done, WINDOW_NS),
        Err(HistogramError::ValueOutOfRange)
    );
    assert_eq!(store.as_ref().unwrap().start_ns, 0);
    assert_eq!(decoded(&store.as_ref().unwrap().histogram).len(), 1);
    assert!(done.is_empty());
}

#[test]
fn histogram_counts_the_recorded_value() {
    let mut store: Option<StartedHistogram> = None;
    let mut done: Vec<IntervalHistogram> = Vec::new();
    histogram_record(1234, &mut store, HIGH, 3, 0, &mut done, 0).unwrap();
    histogram_record(1234, &mut store, HIGH, 3, 0, &mut done, 1).unwrap();
    histogram_record(50_000, &mut store, HIGH, 3, 0, &mut done, WINDOW_NS).unwrap();
    let h = decoded(&done[0].histogram);
    assert_eq!(h.count_at(1234), 2);
    assert_eq!(h.count_at(50_000), 1);
    assert_eq!(h.count_at(617), 0);
    assert_eq!(h.sigfig(), 3);
    assert_eq!(h.low(), 1);
}

#[test]
fn histogram_ignores_bounds_while_a_histogram_is_open() {
    let mut store: Option<StartedHistogram> = None;
    let mut done: Vec<IntervalHistogram> = Vec::new();
    histogram_record(5, &mut store, HIGH, 2, 0, &mut done, 10).unwrap();
    histogram_record(6, &mut store, 1, 9, 0, &mut done, 20).unwrap();
    assert_eq!(decoded(&store.as_ref().unwrap().histogram).len(), 2);
    histogram_record(7, &mut store, 0, 9, 0, &mut done, 10 + WINDOW_NS).unwrap();
    assert!(store.is_none());
    assert_eq!(done.len(), 1);
    assert_eq!(decoded(&done[0].histogram).len(), 3);
}

#[test]
fn closing_keeps_earlier_intervals() {
    let mut store: Option<StartedHistogram> = None;
    let mut done: Vec<IntervalHistogram> = Vec::new();
    histogram_record(1, &mut store, HIGH, 2, 0, &mut done, 0).unwrap();
    histogram_record(2, &mut store, HIGH, 2, 0, &mut done, WINDOW_NS).unwrap();
    histogram_record(3, &mut store, HIGH, 2, 0, &mut done, 2 * WINDOW_NS).unwrap();
    histogram_record(4, &mut store, HIGH, 2, 0, &mut done, 3 * WINDOW_NS).unwrap();
    assert_eq!(done.len(), 2);
    assert_eq!((done[0].start_offset_ns, done[0].duration_ns), (0, WINDOW_NS));
    assert_eq!(
        (done[1].start_offset_ns, done[1].duration_ns),
        (2 * WINDOW_NS, WINDOW_NS)
    );
    assert_eq!(decoded(&done[0].histogram).len(), 2);
    assert_eq!(decoded(&done[1].histogram).len(), 2);
}

#[test]
fn histogram_with_start_before_file_start_is_dropped_on_close() {
    let mut store: Option<StartedHistogram> = None;
    let mut done: Vec<IntervalHistogram> = Vec::new();
    histogram_record(1, &mut store, HIGH, 2, 10 * SEC, &mut done, 5 * SEC).unwrap();
    finish_histogram(&mut store, 10 * SEC, &mut done, 20 * SEC);
    assert!(store.is_none());
    assert!(done.is_empty());
}

#[test]
fn started_histogram_end_reports_time_order_errors() {
    let mut store: Option<StartedHistogram> = None;
    let mut done: Vec<IntervalHistogram> = Vec::new();
    histogram_record(1, &mut store, HIGH, 2, 0, &mut done, 50).unwrap();
    let h = store.take().unwrap();
    assert!(matches!(h.end(60, 70), Err(TimeOrderError::StartBeforeFileStart)));

    histogram_record(1, &mut store, HIGH, 2, 0, &mut done, 50).unwrap();
    let h = store.take().unwrap();
    assert!(matches!(h.end(0, 40), Err(TimeOrderError::EndBeforeStart)));

    histogram_record(1, &mut store, HIGH, 2, 0, &mut done, 50).unwrap();
    let h = store.take().unwrap();
    let ih = h.end(20, 80).unwrap();
    assert_eq!(ih.start_offset_ns, 30);
    assert_eq!(ih.duration_ns, 30);
}
