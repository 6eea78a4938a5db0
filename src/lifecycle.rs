//! Bookkeeping of the live tracked-object set: ids, lifecycle tags and the
//! count of consecutive frames each object has gone without an assigned
//! detection; deaths past the configured threshold; births with fresh ids;
//! and the choice of the best birth hypothesis.

use vstd::prelude::*;

verus! {

/// Where a live object is in its life. Dead objects leave the set.
#[derive(Debug, Clone, Copy, PartialEq, Eq)]
pub enum LifecycleTag {
    /// Born this frame.
    Provisional,
    /// Survived at least one frame after its birth.
    Alive,
}

/// A live tracked object, as the lifecycle sees it.
#[derive(Debug, Clone, Copy, PartialEq, Eq)]
pub struct TrackedObject {
    pub obj_id: u32,
    pub frames_unassigned: u32,
    pub tag: LifecycleTag,
}

/// The lifecycle cannot go on.
#[derive(Debug, Clone, Copy, PartialEq, Eq)]
pub enum LifecycleError {
    /// Every object id has been used.
    IdsExhausted,
}

/// An object's count of consecutive unassigned frames after one more frame.
pub open spec fn next_count(c: nat, assigned: bool) -> nat {
    if assigned {
        0
    } else {
        c + 1
    }
}

/// An object stays live while its count does not exceed the threshold.
pub open spec fn survives(c: nat, threshold: nat) -> bool {
    c <= threshold
}

/// The count after `n` consecutive frames without an assignment.
pub open spec fn count_after_misses(c: nat, n: nat) -> nat
    decreases n,
{
    if n == 0 {
        c
    } else {
        next_count(count_after_misses(c, (n - 1) as nat), false)
    }
}

/// The object after one frame: counted, and no longer provisional.
pub open spec fn advanced(o: TrackedObject, assigned: bool) -> TrackedObject {
    TrackedObject {
        obj_id: o.obj_id,
        frames_unassigned: next_count(o.frames_unassigned as nat, assigned) as u32,
        tag: LifecycleTag::Alive,
    }
}

/// The live set after one frame: each object advanced, those whose count now
/// exceeds the threshold removed, the order kept.
pub open spec fn after_frame(objs: Seq<TrackedObject>, assigned: Seq<bool>, threshold: nat) -> Seq<
    TrackedObject,
>
    decreases objs.len(),
{
    if objs.len() == 0 {
        Seq::empty()
    } else {
        let n = objs.len() - 1;
        let prefix = after_frame(objs.take(n), assigned.take(n), threshold);
        if survives(next_count(objs[n].frames_unassigned as nat, assigned[n]), threshold) {
            prefix.push(advanced(objs[n], assigned[n]))
        } else {
            prefix
        }
    }
}

/// An object left unassigned from a fresh start is still live after exactly
/// `threshold` such frames, and is removed on the frame after, not before.
pub proof fn lemma_death_after_threshold(threshold: nat, n: nat)
    ensures
        count_after_misses(0, n) == n,
        survives(count_after_misses(0, n), threshold) <==> n <= threshold,
        survives(count_after_misses(0, threshold), threshold),
        !survives(count_after_misses(0, threshold + 1), threshold),
    decreases n,
{
    if n > 0 {
        lemma_death_after_threshold(threshold, (n - 1) as nat);
    }
    lemma_count_after_misses(threshold);
    lemma_count_after_misses(threshold + 1);
}

proof fn lemma_count_after_misses(n: nat)
    ensures
        count_after_misses(0, n) == n,
    decreases n,
{
    if n > 0 {
        lemma_count_after_misses((n - 1) as nat);
    }
}

/// The live object set with its id counter and death threshold.
pub struct ObjectSet {
    pub objects: Vec<TrackedObject>,
    pub next_id: u32,
    pub death_threshold: u32,
}

impl ObjectSet {
    /// Ids are below the next id and strictly increase along the set; no
    /// count exceeds the threshold.
    pub open spec fn wf(&self) -> bool {
        &&& forall|i: int, j: int|
            0 <= i < j < self.objects@.len() ==> self.objects@[i].obj_id < self.objects@[j].obj_id
        &&& forall|i: int|
            0 <= i < self.objects@.len() ==> (#[trigger] self.objects@[i]).obj_id < self.next_id
                && self.objects@[i].frames_unassigned <= self.death_threshold
    }

    /// An empty set whose objects die after more than `death_threshold`
    /// consecutive unassigned frames.
    pub fn new(death_threshold: u32) -> (r: Self)
        ensures
            r.wf(),
            r.objects@.len() == 0,
            r.next_id == 0,
            r.death_threshold == death_threshold,
    {
        ObjectSet { objects: Vec::new(), next_id: 0, death_threshold }
    }

    /// Advance every object by one frame: `assigned[i]` says whether object
    /// `i` received a detection. Counts are reset or incremented, and objects
    /// whose count exceeds the threshold die and leave the set.
    pub fn advance_frame(&mut self, assigned: &Vec<bool>)
        requires
            old(self).wf(),
            assigned@.len() == old(self).objects@.len(),
        ensures
            final(self).wf(),
            final(self).next_id == old(self).next_id,
            final(self).death_threshold == old(self).death_threshold,
            final(self).objects@ == after_frame(
                old(self).objects@,
                assigned@,
                old(self).death_threshold as nat,
            ),
    {
        let ghost objs = self.objects@;
        let ghost thr = self.death_threshold as nat;
        let mut kept: Vec<TrackedObject> = Vec::new();
        let mut i: usize = 0;
        while i < self.objects.len()
            invariant
                i <= objs.len(),
                assigned@.len() == objs.len(),
                self.objects@ == objs,
                self.death_threshold == thr,
                kept@ == after_frame(objs.take(i as int), assigned@.take(i as int), thr),
            decreases objs.len() - i,
        {
            let o = self.objects[i];
            let c: u64 = if assigned[i] {
                0
            } else {
                o.frames_unassigned as u64 + 1
            };
            if c <= self.death_threshold as u64 {
                kept.push(TrackedObject {
                    obj_id: o.obj_id,
                    frames_unassigned: c as u32,
                    tag: LifecycleTag::Alive,
                });
            }
            proof {
                assert(objs.take(i + 1).take(i as int) =~= objs.take(i as int));
                assert(assigned@.take(i + 1).take(i as int) =~= assigned@.take(i as int));
            }
            i = i + 1;
        }
        proof {
            assert(objs.take(i as int) =~= objs);
            assert(assigned@.take(i as int) =~= assigned@);
            lemma_after_frame_sub(objs, assigned@, thr);
        }
        self.objects = kept;
    }

    /// The ids that get an estimate this frame: those of the objects that
    /// received a detection, in set order, so in increasing order, each once.
    pub fn frame_estimates(&self, assigned: &Vec<bool>) -> (r: Vec<u32>)
        requires
            self.wf(),
            assigned@.len() == self.objects@.len(),
        ensures
            r@ == estimate_ids(self.objects@, assigned@),
            forall|i: int, j: int| 0 <= i < j < r@.len() ==> r@[i] < r@[j],
    {
        let ghost objs = self.objects@;
        let mut r: Vec<u32> = Vec::new();
        let mut k: usize = 0;
        while k < assigned.len()
            invariant
                self.objects@ == objs,
                assigned@.len() == objs.len(),
                k <= assigned@.len(),
                r@ == estimate_ids(objs.take(k as int), assigned@.take(k as int)),
            decreases assigned@.len() - k,
        {
            if assigned[k] {
                r.push(self.objects[k].obj_id);
            }
            proof {
                assert(objs.take(k + 1).take(k as int) =~= objs.take(k as int));
                assert(assigned@.take(k + 1).take(k as int) =~= assigned@.take(k as int));
            }
            k = k + 1;
        }
        proof {
            assert(objs.take(k as int) =~= objs);
            assert(assigned@.take(k as int) =~= assigned@);
            lemma_estimate_ids_increasing(objs, assigned@);
        }
        r
    }

    /// The last stage of a frame: existing objects advance and those past
    /// the threshold die (see `advance_frame`), then `n_births` new
    /// provisional objects are added with the next ids, which are returned.
    /// Fails, changing nothing, if the ids would run out.
    pub fn births_and_deaths(&mut self, assigned: &Vec<bool>, n_births: u32) -> (r: Result<
        Vec<u32>,
        LifecycleError,
    >)
        requires
            old(self).wf(),
            assigned@.len() == old(self).objects@.len(),
        ensures
            final(self).wf(),
            final(self).death_threshold == old(self).death_threshold,
            (old(self).next_id as nat + n_births as nat) > u32::MAX ==> r == Err::<Vec<u32>, _>(
                LifecycleError::IdsExhausted,
            ) && *final(self) == *old(self),
            (old(self).next_id as nat + n_births as nat) <= u32::MAX ==> (r matches Ok(ids) && {
                &&& ids@ == Seq::new(n_births as nat, |k: int| (old(self).next_id + k) as u32)
                &&& final(self).next_id == old(self).next_id + n_births
                &&& final(self).objects@ == after_frame(
                    old(self).objects@,
                    assigned@,
                    old(self).death_threshold as nat,
                ) + Seq::new(
                    n_births as nat,
                    |k: int|
                        TrackedObject {
                            obj_id: (old(self).next_id + k) as u32,
                            frames_unassigned: 0,
                            tag: LifecycleTag::Provisional,
                        },
                )
            }),
    {
        if n_births > u32::MAX - self.next_id {
            return Err(LifecycleError::IdsExhausted);
        }
        let ghost first = self.next_id;
        let ghost thr = self.death_threshold;
        self.advance_frame(assigned);
        let ghost survivors = self.objects@;
        let mut ids: Vec<u32> = Vec::new();
        let mut k: u32 = 0;
        while k < n_births
            invariant
                self.wf(),
                self.death_threshold == thr,
                k <= n_births,
                (first as nat + n_births as nat) <= u32::MAX,
                self.next_id == first + k,
                ids@ == Seq::new(k as nat, |m: int| (first + m) as u32),
                self.objects@ == survivors + Seq::new(
                    k as nat,
                    |m: int|
                        TrackedObject {
                            obj_id: (first + m) as u32,
                            frames_unassigned: 0,
                            tag: LifecycleTag::Provisional,
                        },
                ),
            decreases n_births - k,
        {
            let ghost before = self.objects@;
            let id = match self.birth() {
                Ok(id) => id,
                Err(_) => {
                    proof {
                        assert(false);
                    }
                    0
                },
            };
            ids.push(id);
            k = k + 1;
            proof {
                assert(ids@ =~= Seq::new(k as nat, |m: int| (first + m) as u32));
                assert(self.objects@ =~= survivors + Seq::new(
                    k as nat,
                    |m: int|
                        TrackedObject {
                            obj_id: (first + m) as u32,
                            frames_unassigned: 0,
                            tag: LifecycleTag::Provisional,
                        },
                ));
            }
        }
        Ok(ids)
    }

    /// Create a new provisional object with the next id.
    pub fn birth(&mut self) -> (r: Result<u32, LifecycleError>)
        requires
            old(self).wf(),
        ensures
            final(self).wf(),
            final(self).death_threshold == old(self).death_threshold,
            old(self).next_id == u32::MAX ==> r == Err::<u32, _>(LifecycleError::IdsExhausted)
                && *final(self) == *old(self),
            old(self).next_id < u32::MAX ==> r == Ok::<u32, LifecycleError>(old(self).next_id)
                && final(self).next_id == old(self).next_id + 1 && final(self).objects@
                == old(self).objects@.push(
                TrackedObject {
                    obj_id: old(self).next_id,
                    frames_unassigned: 0,
                    tag: LifecycleTag::Provisional,
                },
            ),
    {
        if self.next_id == u32::MAX {
            return Err(LifecycleError::IdsExhausted);
        }
        let id = self.next_id;
        self.objects.push(TrackedObject { obj_id: id, frames_unassigned: 0, tag: LifecycleTag::Provisional });
        self.next_id = id + 1;
        Ok(id)
    }
}

/// Ids strictly increase along the set.
pub open spec fn ids_increasing(s: Seq<TrackedObject>) -> bool {
    forall|i: int, j: int| 0 <= i < j < s.len() ==> s[i].obj_id < s[j].obj_id
}

/// Each object after a frame is one of the objects before, counted, within
/// the threshold; increasing ids stay increasing.
proof fn lemma_after_frame_sub(objs: Seq<TrackedObject>, assigned: Seq<bool>, thr: nat)
    requires
        assigned.len() == objs.len(),
    ensures
        forall|k: int| 0 <= k < after_frame(objs, assigned, thr).len() ==> exists|j: int|
            0 <= j < objs.len() && (#[trigger] after_frame(objs, assigned, thr)[k]).obj_id
                == objs[j].obj_id && after_frame(objs, assigned, thr)[k].frames_unassigned <= thr,
        ids_increasing(objs) ==> ids_increasing(after_frame(objs, assigned, thr)),
    decreases objs.len(),
{
    if objs.len() > 0 {
        let n = objs.len() - 1;
        let t = objs.take(n);
        let at = assigned.take(n);
        lemma_after_frame_sub(t, at, thr);
        let prefix = after_frame(t, at, thr);
        let out = after_frame(objs, assigned, thr);
        assert forall|k: int| 0 <= k < prefix.len() implies out[k] == prefix[k] by {}
        assert forall|k: int| 0 <= k < out.len() implies exists|j: int|
            0 <= j < objs.len() && (#[trigger] out[k]).obj_id == objs[j].obj_id
                && out[k].frames_unassigned <= thr by {
            if k < prefix.len() {
                let j = choose|j: int| 0 <= j < t.len() && prefix[k].obj_id == t[j].obj_id
                    && prefix[k].frames_unassigned <= thr;
                assert(objs[j] == t[j]);
            } else {
                assert(out[k].obj_id == objs[n].obj_id);
            }
        }
        if ids_increasing(objs) {
            assert(ids_increasing(t));
            assert forall|a: int, b: int| 0 <= a < b < out.len() implies out[a].obj_id
                < out[b].obj_id by {
                if b >= prefix.len() {
                    let j = choose|j: int| 0 <= j < t.len() && prefix[a].obj_id == t[j].obj_id
                        && prefix[a].frames_unassigned <= thr;
                    assert(objs[j] == t[j]);
                    assert(out[b].obj_id == objs[n].obj_id);
                }
            }
        }
    }
}

/// Some object of the set has id `x` and count `c`.
pub open spec fn has_id(objs: Seq<TrackedObject>, x: u32, c: nat) -> bool {
    exists|k: int| 0 <= k < objs.len() && objs[k].obj_id == x && objs[k].frames_unassigned == c
}

/// No object of the set has id `x`.
pub open spec fn lacks_id(objs: Seq<TrackedObject>, x: u32) -> bool {
    forall|k: int| 0 <= k < objs.len() ==> objs[k].obj_id != x
}

/// The live set after one frame in which the objects whose ids are in
/// `assigned_ids` received a detection.
pub open spec fn step_ids(objs: Seq<TrackedObject>, assigned_ids: Set<u32>, threshold: nat) -> Seq<
    TrackedObject,
> {
    after_frame(objs, Seq::new(objs.len(), |k: int| assigned_ids.contains(objs[k].obj_id)), threshold)
}

/// The live set after a run of frames, each given by the ids assigned in it.
pub open spec fn run_frames(objs: Seq<TrackedObject>, frames: Seq<Set<u32>>, threshold: nat) -> Seq<
    TrackedObject,
>
    decreases frames.len(),
{
    if frames.len() == 0 {
        objs
    } else {
        run_frames(step_ids(objs, frames[0], threshold), frames.skip(1), threshold)
    }
}

/// One frame updates object `x`'s count, and removes it when the count
/// exceeds the threshold.
proof fn lemma_step_object(
    objs: Seq<TrackedObject>,
    assigned: Seq<bool>,
    thr: nat,
    x: u32,
    c: nat,
    k: int,
)
    requires
        ids_increasing(objs),
        assigned.len() == objs.len(),
        0 <= k < objs.len(),
        objs[k].obj_id == x,
        objs[k].frames_unassigned == c,
        thr <= u32::MAX,
    ensures
        next_count(c, assigned[k]) <= thr ==> has_id(
            after_frame(objs, assigned, thr),
            x,
            next_count(c, assigned[k]),
        ),
        next_count(c, assigned[k]) > thr ==> lacks_id(after_frame(objs, assigned, thr), x),
    decreases objs.len(),
{
    let n = objs.len() - 1;
    let t = objs.take(n);
    let at = assigned.take(n);
    let prefix = after_frame(t, at, thr);
    let out = after_frame(objs, assigned, thr);
    lemma_after_frame_sub(t, at, thr);
    assert forall|m: int| 0 <= m < prefix.len() implies out[m] == prefix[m] by {}
    if k == n {
        assert forall|m: int| 0 <= m < prefix.len() implies prefix[m].obj_id != x by {
            let j = choose|j: int| 0 <= j < t.len() && prefix[m].obj_id == t[j].obj_id
                && prefix[m].frames_unassigned <= thr;
            assert(objs[j] == t[j]);
        }
        if next_count(c, assigned[k]) <= thr {
            assert(out[prefix.len() as int].obj_id == x);
        }
    } else {
        assert(ids_increasing(t));
        assert(t[k] == objs[k]);
        assert(at[k] == assigned[k]);
        lemma_step_object(t, at, thr, x, c, k);
        assert(objs[n].obj_id > x);
        if next_count(c, assigned[k]) <= thr {
            let m = choose|m: int| 0 <= m < prefix.len() && prefix[m].obj_id == x
                && prefix[m].frames_unassigned == next_count(c, assigned[k]);
            assert(out[m] == prefix[m]);
        } else {
            assert forall|m: int| 0 <= m < out.len() implies out[m].obj_id != x by {
                if m >= prefix.len() {
                    assert(out[m].obj_id == objs[n].obj_id);
                }
            }
        }
    }
}

/// An object left without a detection for every frame of a run, starting
/// with count `c`, is still live with its count raised by the run's length
/// while that stays within the threshold, and is gone once it exceeds it.
pub proof fn lemma_unassigned_run(
    objs: Seq<TrackedObject>,
    frames: Seq<Set<u32>>,
    thr: nat,
    x: u32,
    c: nat,
)
    requires
        ids_increasing(objs),
        has_id(objs, x, c) || lacks_id(objs, x),
        has_id(objs, x, c) ==> c <= thr,
        forall|f: int| 0 <= f < frames.len() ==> !(#[trigger] frames[f]).contains(x),
        thr <= u32::MAX,
    ensures
        has_id(objs, x, c) && c + frames.len() <= thr ==> has_id(
            run_frames(objs, frames, thr),
            x,
            c + frames.len(),
        ),
        (has_id(objs, x, c) && c + frames.len() > thr) || lacks_id(objs, x) ==> lacks_id(
            run_frames(objs, frames, thr),
            x,
        ),
    decreases frames.len(),
{
    if frames.len() > 0 {
        let assigned = Seq::new(objs.len(), |k: int| frames[0].contains(objs[k].obj_id));
        let next = step_ids(objs, frames[0], thr);
        lemma_after_frame_sub(objs, assigned, thr);
        assert(frames.skip(1).len() == frames.len() - 1);
        assert forall|f: int| 0 <= f < frames.skip(1).len() implies !(
        #[trigger] frames.skip(1)[f]).contains(x) by {
            assert(frames.skip(1)[f] == frames[f + 1]);
        }
        if has_id(objs, x, c) {
            let k = choose|k: int| 0 <= k < objs.len() && objs[k].obj_id == x
                && objs[k].frames_unassigned == c;
            lemma_step_object(objs, assigned, thr, x, c, k);
            if c + 1 <= thr {
                lemma_unassigned_run(next, frames.skip(1), thr, x, c + 1);
            } else {
                lemma_unassigned_run(next, frames.skip(1), thr, x, c + 1);
            }
        } else {
            assert forall|m: int| 0 <= m < next.len() implies next[m].obj_id != x by {
                let j = choose|j: int| 0 <= j < objs.len() && next[m].obj_id == objs[j].obj_id
                    && next[m].frames_unassigned <= thr;
            }
            lemma_unassigned_run(next, frames.skip(1), thr, x, c);
        }
    }
}

/// The ids of the objects that received a detection, in set order.
pub open spec fn estimate_ids(objs: Seq<TrackedObject>, assigned: Seq<bool>) -> Seq<u32>
    decreases objs.len(),
{
    if objs.len() == 0 {
        Seq::empty()
    } else {
        let n = objs.len() - 1;
        let prefix = estimate_ids(objs.take(n), assigned.take(n));
        if assigned[n] {
            prefix.push(objs[n].obj_id)
        } else {
            prefix
        }
    }
}

/// Each estimate id is the id of some object; with increasing ids in the
/// set, the estimate ids increase too, so no object gets two.
proof fn lemma_estimate_ids_increasing(objs: Seq<TrackedObject>, assigned: Seq<bool>)
    requires
        assigned.len() == objs.len(),
    ensures
        forall|i: int| 0 <= i < estimate_ids(objs, assigned).len() ==> exists|k: int|
            0 <= k < objs.len() && #[trigger] estimate_ids(objs, assigned)[i] == objs[k].obj_id,
        ids_increasing(objs) ==> forall|i: int, j: int|
            0 <= i < j < estimate_ids(objs, assigned).len() ==> estimate_ids(objs, assigned)[i]
                < estimate_ids(objs, assigned)[j],
    decreases objs.len(),
{
    if objs.len() > 0 {
        let n = objs.len() - 1;
        let t = objs.take(n);
        lemma_estimate_ids_increasing(t, assigned.take(n));
        let prefix = estimate_ids(t, assigned.take(n));
        let out = estimate_ids(objs, assigned);
        assert forall|i: int| 0 <= i < prefix.len() implies out[i] == prefix[i] by {}
        assert forall|i: int| 0 <= i < out.len() implies exists|k: int|
            0 <= k < objs.len() && #[trigger] out[i] == objs[k].obj_id by {
            if i < prefix.len() {
                let k = choose|k: int| 0 <= k < t.len() && prefix[i] == t[k].obj_id;
                assert(objs[k] == t[k]);
            } else {
                assert(out[i] == objs[n].obj_id);
            }
        }
        if ids_increasing(objs) {
            assert(ids_increasing(t));
            assert forall|i: int, j: int| 0 <= i < j < out.len() implies out[i] < out[j] by {
                if j >= prefix.len() {
                    let k = choose|k: int| 0 <= k < t.len() && prefix[i] == t[k].obj_id;
                    assert(objs[k] == t[k]);
                    assert(out[j] == objs[n].obj_id);
                }
            }
        }
    }
}

/// An object that receives a detection in every frame of a run stays live
/// under the same id, with its count reset to zero.
pub proof fn lemma_assigned_run(
    objs: Seq<TrackedObject>,
    frames: Seq<Set<u32>>,
    thr: nat,
    x: u32,
    c: nat,
)
    requires
        ids_increasing(objs),
        has_id(objs, x, c),
        forall|f: int| 0 <= f < frames.len() ==> (#[trigger] frames[f]).contains(x),
        thr <= u32::MAX,
    ensures
        has_id(run_frames(objs, frames, thr), x, if frames.len() == 0 {
            c
        } else {
            0
        }),
    decreases frames.len(),
{
    if frames.len() > 0 {
        let assigned = Seq::new(objs.len(), |k: int| frames[0].contains(objs[k].obj_id));
        let next = step_ids(objs, frames[0], thr);
        lemma_after_frame_sub(objs, assigned, thr);
        assert forall|f: int| 0 <= f < frames.skip(1).len() implies (
        #[trigger] frames.skip(1)[f]).contains(x) by {
            assert(frames.skip(1)[f] == frames[f + 1]);
        }
        let k = choose|k: int| 0 <= k < objs.len() && objs[k].obj_id == x
            && objs[k].frames_unassigned == c;
        assert(assigned[k]);
        lemma_step_object(objs, assigned, thr, x, c, k);
        lemma_assigned_run(next, frames.skip(1), thr, x, 0);
    }
}

/// A candidate for a new object: a subset of cameras whose rays meet at one
/// 3D point, with the reprojection distances of that point into the member
/// cameras, in hundredths of a pixel.
#[derive(Debug, Clone, Copy, PartialEq, Eq)]
pub struct BirthHypothesis {
    pub n_cams: usize,
    pub mean_reproj_dist_100x: u64,
    pub max_reproj_dist_100x: u64,
}

/// A hypothesis may give birth when it has enough cameras and its point
/// reprojects into every member camera closer than the threshold.
pub open spec fn qualifies(h: BirthHypothesis, min_cams: usize, max_dist_100x: u64) -> bool {
    h.n_cams >= min_cams && h.max_reproj_dist_100x < max_dist_100x
}

/// `a` is preferred to `b`: a lower mean distance, or an equal one with more
/// cameras.
pub open spec fn better(a: BirthHypothesis, b: BirthHypothesis) -> bool {
    a.mean_reproj_dist_100x < b.mean_reproj_dist_100x || (a.mean_reproj_dist_100x
        == b.mean_reproj_dist_100x && a.n_cams > b.n_cams)
}

/// The index of the best qualifying hypothesis: none when none qualifies;
/// otherwise one that no qualifying hypothesis is preferred to, the first
/// such.
pub fn best_hypothesis(cands: &Vec<BirthHypothesis>, min_cams: usize, max_dist_100x: u64) -> (r:
    Option<usize>)
    ensures
        r is None <==> forall|i: int|
            0 <= i < cands@.len() ==> !qualifies(#[trigger] cands@[i], min_cams, max_dist_100x),
        r matches Some(b) ==> {
            &&& b < cands@.len()
            &&& qualifies(cands@[b as int], min_cams, max_dist_100x)
            &&& forall|j: int|
                0 <= j < b && qualifies(#[trigger] cands@[j], min_cams, max_dist_100x) ==> better(
                    cands@[b as int],
                    cands@[j],
                )
            &&& forall|j: int|
                b < j < cands@.len() && qualifies(#[trigger] cands@[j], min_cams, max_dist_100x)
                    ==> !better(cands@[j], cands@[b as int])
        },
{
    let mut best: Option<usize> = None;
    let mut k: usize = 0;
    while k < cands.len()
        invariant
            k <= cands@.len(),
            best is None <==> forall|i: int|
                0 <= i < k ==> !qualifies(#[trigger] cands@[i], min_cams, max_dist_100x),
            best matches Some(b) ==> {
                &&& b < k
                &&& qualifies(cands@[b as int], min_cams, max_dist_100x)
                &&& forall|j: int|
                    0 <= j < b && qualifies(#[trigger] cands@[j], min_cams, max_dist_100x)
                        ==> better(cands@[b as int], cands@[j])
                &&& forall|j: int|
                    b < j < k && qualifies(#[trigger] cands@[j], min_cams, max_dist_100x)
                        ==> !better(cands@[j], cands@[b as int])
            },
        decreases cands@.len() - k,
    {
        let c = cands[k];
        if c.n_cams >= min_cams && c.max_reproj_dist_100x < max_dist_100x {
            match best {
                None => {
                    best = Some(k);
                },
                Some(b) => {
                    let cb = cands[b];
                    if c.mean_reproj_dist_100x < cb.mean_reproj_dist_100x || (
                    c.mean_reproj_dist_100x == cb.mean_reproj_dist_100x && c.n_cams > cb.n_cams) {
                        best = Some(k);
                        proof {
                            assert forall|j: int|
                                0 <= j < k && qualifies(
                                    #[trigger] cands@[j],
                                    min_cams,
                                    max_dist_100x,
                                ) implies better(cands@[k as int], cands@[j]) by {
                                if j < b {
                                } else if j > b {
                                }
                            }
                        }
                    }
                },
            }
        }
        k = k + 1;
    }
    best
}

} // verus!
