use flydra2::contiguous::{
    make_contiguous, ContiguityEnforcer, ContiguityError, GapFill, SENTINEL_FRAME,
};

#[test]
fn contiguity_fills_missing_frame() {
    let out = make_contiguous(&vec![1, 2, 4, 5]).unwrap();
    assert_eq!(
        out,
        vec![(1, true), (2, true), (3, false), (4, true), (5, true)]
    );
    for pair in out.windows(2) {
        assert!(pair[1].0 >= pair[0].0);
    }
}

#[test]
fn contiguity_fills_long_gap() {
    let out = make_contiguous(&vec![10, 14]).unwrap();
    assert_eq!(
        out,
        vec![(10, true), (11, false), (12, false), (13, false), (14, true)]
    );
}

#[test]
fn contiguity_empty_input() {
    assert_eq!(make_contiguous(&vec![]).unwrap(), vec![]);
}

#[test]
fn contiguity_refuses_sentinel() {
    assert_eq!(
        make_contiguous(&vec![1, SENTINEL_FRAME]),
        Err(ContiguityError::ReservedFrameNumber {
            frame: SENTINEL_FRAME
        })
    );
}

#[test]
fn enforcer_reports_gap_start() {
    let mut e = ContiguityEnforcer::new();
    assert_eq!(e.accept(7), Ok(GapFill { start: 7, frame: 7 }));
    assert_eq!(e.accept(8), Ok(GapFill { start: 8, frame: 8 }));
    assert_eq!(e.accept(11), Ok(GapFill { start: 9, frame: 11 }));
    // A repeated frame gets no gap.
    assert_eq!(e.accept(11), Ok(GapFill { start: 11, frame: 11 }));
    assert_eq!(e.last(), Some(11));
    assert!(e.accept(SENTINEL_FRAME).is_err());
    assert_eq!(e.last(), Some(11));
}
