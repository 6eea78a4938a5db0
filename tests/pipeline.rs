use flydra2::bundler::{Arrival, FrameBundler};
use flydra2::contiguous::{GapFill, SENTINEL_FRAME};
use flydra2::coordinator::{check_raw_frame, CoordinatorError, FrameOrderGuard, IngestPipeline};

#[test]
fn bundler_groups_by_frame_and_drops_late_records() {
    let mut b: FrameBundler<&str> = FrameBundler::new();
    let (a, out) = b.push(1, "cam1");
    assert_eq!(a, Arrival::Opened);
    assert!(out.is_none());
    let (a, out) = b.push(1, "cam2");
    assert_eq!(a, Arrival::Joined);
    assert!(out.is_none());
    let (a, out) = b.push(2, "cam1");
    assert_eq!(a, Arrival::Opened);
    let done = out.unwrap();
    assert_eq!(done.frame, 1);
    assert_eq!(done.items, vec!["cam1", "cam2"]);
    let (a, out) = b.push(1, "cam3");
    assert_eq!(a, Arrival::DroppedLate);
    assert!(out.is_none());
    let last = b.finish().unwrap();
    assert_eq!(last.frame, 2);
    assert_eq!(last.items, vec!["cam1"]);
    assert!(b.finish().is_none());
    assert!(b.is_idle());
}

#[test]
fn pipeline_emits_bundles_with_gaps_in_order() {
    let mut p: IngestPipeline<u8> = IngestPipeline::new();
    let mut emitted: Vec<(GapFill, u64, Vec<u8>)> = Vec::new();
    for (frame, cam) in [(1u64, 1u8), (1, 2), (2, 1), (4, 1), (4, 2), (5, 3)] {
        let (_arrival, out) = p.ingest(frame, cam).unwrap();
        if let Some(cb) = out {
            emitted.push((cb.fill, cb.bundle.frame, cb.bundle.items));
        }
    }
    let cb = p.finish().unwrap();
    emitted.push((cb.fill, cb.bundle.frame, cb.bundle.items));
    assert_eq!(
        emitted,
        vec![
            (GapFill { start: 1, frame: 1 }, 1, vec![1, 2]),
            (GapFill { start: 2, frame: 2 }, 2, vec![1]),
            (GapFill { start: 3, frame: 4 }, 4, vec![1, 2]),
            (GapFill { start: 5, frame: 5 }, 5, vec![3]),
        ]
    );
}

#[test]
fn pipeline_drops_records_for_emitted_frames_after_finish() {
    let mut p: IngestPipeline<u8> = IngestPipeline::new();
    p.ingest(3, 1).unwrap();
    assert!(p.finish().is_some());
    let (arrival, out) = p.ingest(2, 1).unwrap();
    assert_eq!(arrival, Arrival::DroppedLate);
    assert!(out.is_none());
    let (arrival, _) = p.ingest(6, 1).unwrap();
    assert_eq!(arrival, Arrival::Opened);
    let cb = p.finish().unwrap();
    assert_eq!(cb.fill, GapFill { start: 4, frame: 6 });
}

#[test]
fn pipeline_refuses_sentinel_frame() {
    let mut p: IngestPipeline<u8> = IngestPipeline::new();
    assert!(matches!(
        p.ingest(SENTINEL_FRAME, 0),
        Err(CoordinatorError::ImpossibleFrame { frame: SENTINEL_FRAME })
    ));
    assert_eq!(
        check_raw_frame(SENTINEL_FRAME),
        Err(CoordinatorError::ImpossibleFrame {
            frame: SENTINEL_FRAME
        })
    );
    assert_eq!(check_raw_frame(0), Ok(()));
}

#[test]
fn frame_order_guard_refuses_decrease() {
    let mut g = FrameOrderGuard::new();
    assert_eq!(g.check(0), Ok(()));
    assert_eq!(g.check(5), Ok(()));
    assert_eq!(g.check(5), Ok(()));
    assert_eq!(
        g.check(4),
        Err(CoordinatorError::FrameDecreased { prev: 5, frame: 4 })
    );
    assert_eq!(g.prev, 5);
}
