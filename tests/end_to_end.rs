use std::collections::BTreeMap;

use flydra2::association::{assigned_objects, associate};
use flydra2::coordinator::IngestPipeline;
use flydra2::lifecycle::{best_hypothesis, BirthHypothesis, ObjectSet};
use flydra2::subsets::set_of_subsets;

/// Reprojection distance, in hundredths of a pixel, of every detection of a
/// static point seen consistently by all cameras.
const DIST_100X: u64 = 20;
const GATE_100X: u64 = 500;
const MIN_CAMS: usize = 2;

#[test]
fn three_cameras_static_point_one_stable_object() {
    let mut pipeline: IngestPipeline<u8> = IngestPipeline::new();
    let mut set = ObjectSet::new(5);
    let mut bundles: Vec<(u64, Vec<u8>)> = Vec::new();
    for frame in 1..=10u64 {
        for cam in 1..=3u8 {
            let (_arrival, out) = pipeline.ingest(frame, cam).unwrap();
            if let Some(cb) = out {
                assert_eq!(cb.fill.start, cb.fill.frame);
                bundles.push((cb.bundle.frame, cb.bundle.items));
            }
        }
    }
    let cb = pipeline.finish().unwrap();
    bundles.push((cb.bundle.frame, cb.bundle.items));
    assert_eq!(bundles.len(), 10);

    let mut born_on: Option<u64> = None;
    let mut estimates: Vec<(u64, u32)> = Vec::new();
    for (frame, cams) in bundles.iter() {
        // One detection per camera; every live object sees it nearby.
        let n_obj = set.objects.len();
        let mut per_camera: Vec<Vec<Option<usize>>> = Vec::new();
        let mut unused_cams: BTreeMap<u8, ()> = BTreeMap::new();
        for cam in cams.iter() {
            let costs: Vec<Vec<u64>> = (0..n_obj).map(|_| vec![DIST_100X]).collect();
            let assignment = associate(&costs, 1, GATE_100X);
            if !assignment.iter().any(|a| a.is_some()) {
                unused_cams.insert(*cam, ());
            }
            per_camera.push(assignment);
        }
        let assigned = assigned_objects(&per_camera, n_obj);
        for id in set.frame_estimates(&assigned) {
            estimates.push((*frame, id));
        }
        let hypotheses: Vec<BirthHypothesis> = set_of_subsets(&unused_cams)
            .iter()
            .map(|s| BirthHypothesis {
                n_cams: s.len(),
                mean_reproj_dist_100x: DIST_100X,
                max_reproj_dist_100x: DIST_100X,
            })
            .collect();
        let n_births = match best_hypothesis(&hypotheses, MIN_CAMS, GATE_100X) {
            Some(best) => {
                assert_eq!(hypotheses[best].n_cams, 3);
                1
            }
            None => 0,
        };
        let ids = set.births_and_deaths(&assigned, n_births).unwrap();
        if !ids.is_empty() && born_on.is_none() {
            born_on = Some(*frame);
        }
    }

    assert_eq!(born_on, Some(1));
    assert_eq!(set.objects.len(), 1);
    assert_eq!(set.objects[0].obj_id, 0);
    assert_eq!(
        estimates,
        (2..=10u64).map(|f| (f, 0u32)).collect::<Vec<_>>()
    );
}
