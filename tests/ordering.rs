use flydra2::ordering::{OrderingWriter, DEFAULT_BUFFER_FRAMES};

#[test]
fn ordering_writer_flushes_oldest_beyond_bound_then_rest_on_close() {
    let mut w: OrderingWriter<u64> = OrderingWriter::new(DEFAULT_BUFFER_FRAMES);
    let mut sink: Vec<u64> = Vec::new();
    let mut first_flush_at: Option<u64> = None;
    for frame in 1..=1500u64 {
        let flushed = w.serialize(frame, frame);
        if !flushed.is_empty() && first_flush_at.is_none() {
            first_flush_at = Some(frame);
        }
        sink.extend(flushed);
    }
    assert_eq!(first_flush_at, Some(1001));
    assert_eq!(sink, (1..=500u64).collect::<Vec<_>>());
    assert!(sink.iter().all(|f| *f < 1000));
    assert_eq!(w.len(), 1000);
    let rest = w.close();
    assert_eq!(rest, (501..=1500u64).collect::<Vec<_>>());
    assert_eq!(w.len(), 0);
}

#[test]
fn ordering_writer_sorts_out_of_order_frames_and_groups_rows() {
    let mut w: OrderingWriter<(u64, char)> = OrderingWriter::new(2);
    assert!(w.serialize(5, (5, 'a')).is_empty());
    assert!(w.serialize(3, (3, 'b')).is_empty());
    assert!(w.serialize(5, (5, 'c')).is_empty());
    assert_eq!(w.len(), 2);
    // A third frame exceeds the bound: the oldest frame leaves.
    assert_eq!(w.serialize(4, (4, 'd')), vec![(3, 'b')]);
    assert_eq!(w.close(), vec![(4, 'd'), (5, 'a'), (5, 'c')]);
}

#[test]
fn ordering_writer_bound_zero_flushes_immediately() {
    let mut w: OrderingWriter<u8> = OrderingWriter::new(0);
    assert_eq!(w.serialize(7, 1), vec![1]);
    assert_eq!(w.len(), 0);
    assert!(w.close().is_empty());
}
