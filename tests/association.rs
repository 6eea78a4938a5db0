use flydra2::association::{assigned_objects, associate, association_rows};
use flydra2::records::DataAssocRow;

#[test]
fn associate_minimises_total_distance() {
    // Greedy in object order would pair 0-0 and 1-1 at 1 + 100; the least
    // total is 2 + 1.
    let costs = vec![vec![1, 2], vec![1, 100]];
    assert_eq!(associate(&costs, 2, 1000), vec![Some(1), Some(0)]);
    // 10 + 40 = 50 beats 50 + 5 = 55.
    let costs = vec![vec![50, 10, 300], vec![40, 5, 300]];
    assert_eq!(associate(&costs, 3, 100), vec![Some(1), Some(0)]);
}

#[test]
fn associate_prefers_more_pairs_over_lower_total() {
    // One pair at 1 (0-0) costs less than two pairs at 8 + 9, but two pairs
    // are preferred.
    let costs = vec![vec![1, 8], vec![9, 1000]];
    assert_eq!(associate(&costs, 2, 100), vec![Some(1), Some(0)]);
}

#[test]
fn associate_respects_gate() {
    let costs = vec![vec![100, 250], vec![99, 1000]];
    assert_eq!(associate(&costs, 2, 100), vec![None, Some(0)]);
}

#[test]
fn associate_uses_each_detection_once() {
    let costs = vec![vec![1], vec![1], vec![1]];
    let r = associate(&costs, 1, 10);
    assert_eq!(r.len(), 3);
    assert_eq!(r.iter().filter(|a| **a == Some(0)).count(), 1);
    assert_eq!(r.iter().filter(|a| a.is_none()).count(), 2);
}

#[test]
fn associate_single_object_takes_nearest() {
    let costs = vec![vec![7, 3, 9]];
    assert_eq!(associate(&costs, 3, 10), vec![Some(1)]);
}

#[test]
fn associate_without_objects_or_detections() {
    assert!(associate(&vec![], 4, 10).is_empty());
    assert_eq!(associate(&vec![vec![], vec![]], 0, 10), vec![None, None]);
}

#[test]
fn association_rows_one_per_match() {
    let rows = association_rows(12, 3, &vec![7, 8, 9], &vec![Some(2), None, Some(0)]);
    assert_eq!(
        rows,
        vec![
            DataAssocRow {
                obj_id: 7,
                frame: 12,
                cam_num: 3,
                pt_idx: 2
            },
            DataAssocRow {
                obj_id: 9,
                frame: 12,
                cam_num: 3,
                pt_idx: 0
            },
        ]
    );
}

#[test]
fn assigned_objects_any_camera() {
    let per_camera = vec![vec![None, Some(0), None], vec![Some(1), None, None]];
    assert_eq!(assigned_objects(&per_camera, 3), vec![true, true, false]);
    assert_eq!(assigned_objects(&vec![], 2), vec![false, false]);
}

#[test]
fn associate_accepts_distance_equal_to_threshold() {
    assert_eq!(associate(&vec![vec![10, 11]], 2, 10), vec![Some(0)]);
    assert_eq!(associate(&vec![vec![11]], 1, 10), vec![None]);
}
