//! Data association for one camera: live objects are matched to that
//! camera's detections by reprojection distance. Distances beyond the
//! gating threshold are ineligible. Each object gets at most one detection of
//! the camera and each detection goes to at most one object. Among such
//! matchings the chosen one has the most pairs and, among those, the least
//! total distance (fewest pairs would otherwise always cost least).

use crate::records::DataAssocRow;
use vstd::prelude::*;

verus! {

/// `s` assigns objects `i..` (entry `k` is object `i + k`) only to gated
/// detections that are not in `taken`, each detection at most once.
pub open spec fn valid_from(
    costs: Seq<Vec<u64>>,
    n_dets: nat,
    gate: u64,
    taken: Seq<bool>,
    i: int,
    s: Seq<Option<usize>>,
) -> bool {
    &&& 0 <= i <= costs.len()
    &&& s.len() == costs.len() - i
    &&& forall|k: int| 0 <= k < s.len() ==> (#[trigger] s[k] matches Some(j) ==> j < n_dets
        && j < taken.len() && !taken[j as int] && costs[i + k]@[j as int] <= gate)
    &&& forall|a: int, b: int| 0 <= a < b < s.len() && s[a] is Some ==> s[a] != s[b]
}

/// A valid assignment of all objects.
pub open spec fn valid_assignment(costs: Seq<Vec<u64>>, n_dets: nat, gate: u64, a: Seq<Option<usize>>) -> bool {
    valid_from(costs, n_dets, gate, Seq::new(n_dets, |j: int| false), 0, a)
}

/// The number of objects assigned.
pub open spec fn n_matched(s: Seq<Option<usize>>) -> nat
    decreases s.len(),
{
    if s.len() == 0 {
        0
    } else {
        (if s[0] is Some {
            1nat
        } else {
            0nat
        }) + n_matched(s.skip(1))
    }
}

/// The total distance of the pairs of `s`, whose entry `k` is object `i + k`.
pub open spec fn cost_from(costs: Seq<Vec<u64>>, i: int, s: Seq<Option<usize>>) -> nat
    decreases s.len(),
{
    if s.len() == 0 {
        0
    } else {
        (match s[0] {
            Some(j) => costs[i]@[j as int] as nat,
            None => 0nat,
        }) + cost_from(costs, i + 1, s.skip(1))
    }
}

/// Score `(n1, c1)` is preferred to `(n2, c2)`: more pairs, or as many at a
/// lower total distance.
pub open spec fn preferred(n1: nat, c1: nat, n2: nat, c2: nat) -> bool {
    n1 > n2 || (n1 == n2 && c1 < c2)
}

proof fn lemma_cost_bound(costs: Seq<Vec<u64>>, i: int, s: Seq<Option<usize>>)
    ensures
        n_matched(s) <= s.len(),
        cost_from(costs, i, s) <= s.len() * 0x1_0000_0000_0000_0000,
    decreases s.len(),
{
    if s.len() > 0 {
        lemma_cost_bound(costs, i + 1, s.skip(1));
    }
}

/// The best assignment of objects `i..` given the detections already taken.
fn best_from(
    costs: &Vec<Vec<u64>>,
    n_dets: usize,
    gate: u64,
    i: usize,
    taken: &mut Vec<bool>,
) -> (r: (Vec<Option<usize>>, u64, u128))
    requires
        i <= costs@.len(),
        costs@.len() < 0x1_0000_0000,
        old(taken)@.len() == n_dets,
        forall|k: int| 0 <= k < costs@.len() ==> (#[trigger] costs@[k])@.len() == n_dets,
    ensures
        final(taken)@ == old(taken)@,
        valid_from(costs@, n_dets as nat, gate, old(taken)@, i as int, r.0@),
        r.1 == n_matched(r.0@),
        r.2 == cost_from(costs@, i as int, r.0@),
        forall|s: Seq<Option<usize>>| #[trigger] valid_from(costs@, n_dets as nat, gate, old(taken)@, i as int, s)
            ==> !preferred(n_matched(s), cost_from(costs@, i as int, s), r.1 as nat, r.2 as nat),
    decreases costs@.len() - i,
{
    let ghost t0 = taken@;
    if i == costs.len() {
        let r: Vec<Option<usize>> = Vec::new();
        proof {
            assert forall|s: Seq<Option<usize>>| #[trigger] valid_from(costs@, n_dets as nat, gate, t0, i as int, s)
                implies !preferred(n_matched(s), cost_from(costs@, i as int, s), 0, 0) by {
                assert(s.len() == 0);
            }
        }
        return (r, 0, 0);
    }
    let (sub, c, cost) = best_from(costs, n_dets, gate, i + 1, taken);
    let mut best = sub;
    best.insert(0, None);
    let mut bc: u64 = c;
    let mut bcost: u128 = cost;
    proof {
        assert(best@.skip(1) =~= sub@);
        assert forall|k: int| 0 <= k < best@.len() implies (#[trigger] best@[k] matches Some(j) ==> j < n_dets
            && j < t0.len() && !t0[j as int] && costs@[i + k]@[j as int] <= gate) by {
            if k > 0 {
                assert(best@[k] == sub@[k - 1]);
            }
        }
        assert(valid_from(costs@, n_dets as nat, gate, t0, i as int, best@));
        assert forall|s: Seq<Option<usize>>| #[trigger] valid_from(costs@, n_dets as nat, gate, t0, i as int, s)
            && s[0] is None implies !preferred(n_matched(s), cost_from(costs@, i as int, s), bc as nat, bcost as nat) by {
            let t = s.skip(1);
            assert forall|k: int| 0 <= k < t.len() implies (#[trigger] t[k] matches Some(j) ==> j < n_dets
                && j < t0.len() && !t0[j as int] && costs@[i + 1 + k]@[j as int] <= gate) by {
                assert(t[k] == s[k + 1]);
            }
            assert(valid_from(costs@, n_dets as nat, gate, t0, i + 1, t));
        }
    }
    let row = &costs[i];
    let mut j: usize = 0;
    while j < n_dets
        invariant
            i < costs@.len(),
            costs@.len() < 0x1_0000_0000,
            forall|k: int| 0 <= k < costs@.len() ==> (#[trigger] costs@[k])@.len() == n_dets,
            row@ == costs@[i as int]@,
            taken@ == t0,
            t0.len() == n_dets,
            j <= n_dets,
            valid_from(costs@, n_dets as nat, gate, t0, i as int, best@),
            bc == n_matched(best@),
            bcost == cost_from(costs@, i as int, best@),
            forall|s: Seq<Option<usize>>| #[trigger] valid_from(costs@, n_dets as nat, gate, t0, i as int, s)
                && (s[0] is None || s[0]->Some_0 < j) ==> !preferred(
                n_matched(s),
                cost_from(costs@, i as int, s),
                bc as nat,
                bcost as nat,
            ),
        decreases n_dets - j,
    {
        if !taken[j] && row[j] <= gate {
            taken.set(j, true);
            let ghost t1 = taken@;
            let (sub, c, cost) = best_from(costs, n_dets, gate, i + 1, taken);
            taken.set(j, false);
            proof {
                assert(taken@ =~= t0);
                lemma_cost_bound(costs@, i + 1, sub@);
            }
            let nc: u64 = c + 1;
            let ncost: u128 = cost + row[j] as u128;
            let ghost old_bc = bc;
            let ghost old_bcost = bcost;
            if nc > bc || (nc == bc && ncost < bcost) {
                let mut cand = sub;
                cand.insert(0, Some(j));
                proof {
                    assert(cand@.skip(1) =~= sub@);
                    assert forall|k: int| 0 <= k < cand@.len() implies (#[trigger] cand@[k] matches Some(m) ==> m < n_dets
                        && m < t0.len() && !t0[m as int] && costs@[i + k]@[m as int] <= gate) by {
                        if k > 0 {
                            assert(cand@[k] == sub@[k - 1]);
                        }
                    }
                    assert forall|a: int, b: int| 0 <= a < b < cand@.len() && cand@[a] is Some implies cand@[a] != cand@[b] by {
                        if a == 0 {
                            assert(cand@[b] == sub@[b - 1]);
                        } else {
                            assert(cand@[a] == sub@[a - 1]);
                            assert(cand@[b] == sub@[b - 1]);
                        }
                    }
                }
                best = cand;
                bc = nc;
                bcost = ncost;
            }
            proof {
                assert forall|s: Seq<Option<usize>>| #[trigger] valid_from(costs@, n_dets as nat, gate, t0, i as int, s)
                    && (s[0] is None || s[0]->Some_0 < j + 1) implies !preferred(
                    n_matched(s),
                    cost_from(costs@, i as int, s),
                    bc as nat,
                    bcost as nat,
                ) by {
                    if s[0] == Some(j) {
                        let t = s.skip(1);
                        assert forall|k: int| 0 <= k < t.len() implies (#[trigger] t[k] matches Some(m) ==> m < n_dets
                            && m < t1.len() && !t1[m as int] && costs@[i + 1 + k]@[m as int] <= gate) by {
                            assert(t[k] == s[k + 1]);
                            if t[k] == Some(j) {
                                assert(s[0] == s[k + 1]);
                            }
                        }
                        assert forall|a: int, b: int| 0 <= a < b < t.len() && t[a] is Some implies t[a] != t[b] by {
                            assert(t[a] == s[a + 1]);
                            assert(t[b] == s[b + 1]);
                        }
                        assert(valid_from(costs@, n_dets as nat, gate, t1, i + 1, t));
                    }
                }
            }
        }
        j = j + 1;
    }
    proof {
        assert forall|s: Seq<Option<usize>>| #[trigger] valid_from(costs@, n_dets as nat, gate, t0, i as int, s)
            implies !preferred(n_matched(s), cost_from(costs@, i as int, s), bc as nat, bcost as nat) by {
            if s[0] is Some {
                assert(s[0]->Some_0 < n_dets);
            }
        }
    }
    (best, bc, bcost)
}

/// Match the objects to one camera's detections. Row `i` of `costs` holds
/// the reprojection distance of every detection from object `i`. The result
/// gives each object its detection, if any: the most pairs within the
/// gating threshold, and among those the least total distance.
pub fn associate(costs: &Vec<Vec<u64>>, n_dets: usize, gate: u64) -> (r: Vec<Option<usize>>)
    requires
        forall|i: int| 0 <= i < costs@.len() ==> (#[trigger] costs@[i])@.len() == n_dets,
        costs@.len() < 0x1_0000_0000,
    ensures
        valid_assignment(costs@, n_dets as nat, gate, r@),
        forall|s: Seq<Option<usize>>| #[trigger] valid_assignment(costs@, n_dets as nat, gate, s)
            ==> !preferred(n_matched(s), cost_from(costs@, 0, s), n_matched(r@), cost_from(costs@, 0, r@)),
{
    let mut taken: Vec<bool> = Vec::new();
    let mut j0: usize = 0;
    while j0 < n_dets
        invariant
            j0 <= n_dets,
            taken@.len() == j0,
            forall|j: int| 0 <= j < j0 ==> !taken@[j],
        decreases n_dets - j0,
    {
        taken.push(false);
        j0 = j0 + 1;
    }
    proof {
        assert(taken@ =~= Seq::new(n_dets as nat, |j: int| false));
    }
    let (r, _c, _cost) = best_from(costs, n_dets, gate, 0, &mut taken);
    r
}

/// The association rows of one camera's matches on `frame`: one per
/// assigned object, in object order.
pub fn association_rows(
    frame: u64,
    cam_num: u8,
    obj_ids: &Vec<u32>,
    assignment: &Vec<Option<usize>>,
) -> (rows: Vec<DataAssocRow>)
    requires
        obj_ids@.len() == assignment@.len(),
        forall|i: int| 0 <= i < assignment@.len() ==> (#[trigger] assignment@[i] matches Some(c)
            ==> c <= u8::MAX),
    ensures
        rows@ == assoc_rows_spec(frame, cam_num, obj_ids@, assignment@),
{
    let mut rows: Vec<DataAssocRow> = Vec::new();
    let mut i: usize = 0;
    while i < assignment.len()
        invariant
            i <= assignment@.len(),
            obj_ids@.len() == assignment@.len(),
            forall|k: int| 0 <= k < assignment@.len() ==> (#[trigger] assignment@[k] matches Some(
                c,
            ) ==> c <= u8::MAX),
            rows@ == assoc_rows_spec(frame, cam_num, obj_ids@.take(i as int), assignment@.take(i as int)),
        decreases assignment@.len() - i,
    {
        proof {
            lemma_assoc_rows_push(frame, cam_num, obj_ids@, assignment@, i as int);
        }
        if let Some(c) = assignment[i] {
            rows.push(DataAssocRow { obj_id: obj_ids[i], frame, cam_num, pt_idx: c as u8 });
        }
        i = i + 1;
    }
    proof {
        assert(obj_ids@.take(i as int) =~= obj_ids@);
        assert(assignment@.take(i as int) =~= assignment@);
    }
    rows
}

/// The association rows of the assigned objects, in object order.
pub open spec fn assoc_rows_spec(
    frame: u64,
    cam_num: u8,
    obj_ids: Seq<u32>,
    assignment: Seq<Option<usize>>,
) -> Seq<DataAssocRow>
    decreases assignment.len(),
{
    if assignment.len() == 0 {
        Seq::empty()
    } else {
        let n = (assignment.len() - 1) as int;
        let prefix = assoc_rows_spec(frame, cam_num, obj_ids.take(n), assignment.take(n));
        match assignment[n] {
            Some(c) => prefix.push(
                DataAssocRow { obj_id: obj_ids[n], frame, cam_num, pt_idx: c as u8 },
            ),
            None => prefix,
        }
    }
}

proof fn lemma_assoc_rows_push(
    frame: u64,
    cam_num: u8,
    obj_ids: Seq<u32>,
    assignment: Seq<Option<usize>>,
    i: int,
)
    requires
        0 <= i < assignment.len(),
        obj_ids.len() == assignment.len(),
    ensures
        assoc_rows_spec(frame, cam_num, obj_ids.take(i + 1), assignment.take(i + 1)) == match assignment[i] {
            Some(c) => assoc_rows_spec(frame, cam_num, obj_ids.take(i), assignment.take(i)).push(
                DataAssocRow { obj_id: obj_ids[i], frame, cam_num, pt_idx: c as u8 },
            ),
            None => assoc_rows_spec(frame, cam_num, obj_ids.take(i), assignment.take(i)),
        },
{
    assert(obj_ids.take(i + 1).take(i) =~= obj_ids.take(i));
    assert(assignment.take(i + 1).take(i) =~= assignment.take(i));
}

/// Whether each of `n_objects` objects received a detection from any
/// camera, given each camera's assignment.
pub fn assigned_objects(per_camera: &Vec<Vec<Option<usize>>>, n_objects: usize) -> (r: Vec<bool>)
    requires
        forall|c: int| 0 <= c < per_camera@.len() ==> (#[trigger] per_camera@[c])@.len()
            == n_objects,
    ensures
        r@.len() == n_objects,
        forall|i: int| 0 <= i < n_objects ==> (#[trigger] r@[i] <==> exists|c: int|
            0 <= c < per_camera@.len() && (#[trigger] per_camera@[c])@[i] is Some),
{
    let mut r: Vec<bool> = Vec::new();
    let mut i: usize = 0;
    while i < n_objects
        invariant
            i <= n_objects,
            r@.len() == i,
            forall|c: int| 0 <= c < per_camera@.len() ==> (#[trigger] per_camera@[c])@.len()
                == n_objects,
            forall|k: int| 0 <= k < i ==> (#[trigger] r@[k] <==> exists|c: int|
                0 <= c < per_camera@.len() && (#[trigger] per_camera@[c])@[k] is Some),
        decreases n_objects - i,
    {
        let mut any: bool = false;
        let mut c: usize = 0;
        while c < per_camera.len()
            invariant
                c <= per_camera@.len(),
                i < n_objects,
                forall|d: int| 0 <= d < per_camera@.len() ==> (#[trigger] per_camera@[d])@.len()
                    == n_objects,
                any <==> exists|d: int| 0 <= d < c && (#[trigger] per_camera@[d])@[i as int] is Some,
            decreases per_camera@.len() - c,
        {
            if per_camera[c][i].is_some() {
                any = true;
            }
            c = c + 1;
        }
        r.push(any);
        i = i + 1;
    }
    r
}

} // verus!
