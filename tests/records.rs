use flydra2::capture::{after_send, grab_to_message, FrameResult, GrabOutcome, LoopAction, SendStatus};
use flydra2::records::{into_save, safe_u8, DataAssocRow, ExperimentInfoRow, SavedRow};

#[test]
fn safe_u8_keeps_value() {
    assert_eq!(safe_u8(0), 0);
    assert_eq!(safe_u8(255), 255);
}

#[test]
fn data_assoc_row_key_is_frame() {
    let row = DataAssocRow {
        obj_id: 3,
        frame: 42,
        cam_num: 1,
        pt_idx: 0,
    };
    assert_eq!(row.key(), 42);
}

#[test]
fn experiment_info_row_holds_uuid() {
    let row = ExperimentInfoRow {
        uuid: "abc".to_string(),
    };
    assert_eq!(row.clone(), row);
}

#[test]
fn capture_policy_drops_newest_when_full() {
    assert_eq!(after_send(SendStatus::Sent), LoopAction::Continue);
    assert_eq!(after_send(SendStatus::Full), LoopAction::LogDropAndContinue);
    assert_eq!(after_send(SendStatus::Disconnected), LoopAction::Stop);
}

#[test]
fn capture_policy_maps_grab_outcomes() {
    assert!(matches!(
        grab_to_message(GrabOutcome::Frame(7u8)),
        Some(FrameResult::Frame(7))
    ));
    match grab_to_message::<u8>(GrabOutcome::SingleFrameError("lost".to_string())) {
        Some(FrameResult::SingleFrameError(s)) => assert_eq!(s, "lost"),
        _ => panic!("expected a single-frame error"),
    }
    assert!(grab_to_message::<u8>(GrabOutcome::Fatal("gone".to_string())).is_none());
}

#[test]
fn into_save_one_row_per_point() {
    assert_eq!(
        into_save(vec![7u8, 9], true),
        vec![SavedRow::Point(7), SavedRow::Point(9)]
    );
    assert_eq!(into_save(vec![7u8], false), vec![SavedRow::Point(7)]);
}

#[test]
fn into_save_empty_frame() {
    assert_eq!(into_save(Vec::<u8>::new(), true), vec![SavedRow::Empty]);
    assert!(into_save(Vec::<u8>::new(), false).is_empty());
}
