//! Gap filling: between two received frame numbers every missing frame is
//! emitted as an empty bundle, so downstream stages see each frame number.

use vstd::prelude::*;

verus! {

/// The frame number reserved as a sentinel; receiving it means the upstream
/// stream is corrupt.
pub const SENTINEL_FRAME: u64 = 0xffff_ffff_ffff_ffff;

/// A fatal fault in the frame stream.
#[derive(Debug, Clone, Copy, PartialEq, Eq)]
pub enum ContiguityError {
    /// The reserved sentinel frame number was received.
    ReservedFrameNumber { frame: u64 },
}

/// The empty frames to emit before a received frame: `start..frame`.
#[derive(Debug, Clone, Copy, PartialEq, Eq)]
pub struct GapFill {
    pub start: u64,
    pub frame: u64,
}

/// The first frame to fill before `frame`, given the last frame seen.
pub open spec fn gap_start(last: Option<u64>, frame: u64) -> u64 {
    match last {
        Some(l) => if l < frame {
            (l + 1) as u64
        } else {
            frame
        },
        None => frame,
    }
}

/// What the enforcer emits for a list of received frames, after `last`:
/// each frame as `(frame, true)`, preceded by each missing frame as
/// `(frame, false)`.
pub open spec fn contiguous_from(last: Option<u64>, frames: Seq<u64>) -> Seq<(u64, bool)>
    decreases frames.len(),
{
    if frames.len() == 0 {
        Seq::empty()
    } else {
        let f = frames[0];
        let s = gap_start(last, f);
        Seq::new((f - s) as nat, |i: int| ((s + i) as u64, false)) + seq![(f, true)]
            + contiguous_from(Some(f), frames.skip(1))
    }
}

/// No received frame is the sentinel.
pub open spec fn no_sentinel(frames: Seq<u64>) -> bool {
    forall|i: int| 0 <= i < frames.len() ==> frames[i] != SENTINEL_FRAME
}

/// Frames strictly increase along the list.
pub open spec fn strictly_increasing(frames: Seq<u64>) -> bool {
    forall|i: int, j: int| 0 <= i < j < frames.len() ==> frames[i] < frames[j]
}

/// For frames received in increasing order, the output is gap-free: each
/// emitted frame number is one more than the one before, so it never
/// decreases; it starts at the gap start of the first frame and ends at the
/// last frame received.
pub proof fn lemma_contiguous_gap_free(last: Option<u64>, frames: Seq<u64>)
    requires
        strictly_increasing(frames),
        frames.len() > 0 && last is Some ==> last->Some_0 < frames[0],
    ensures
        ({
            let out = contiguous_from(last, frames);
            &&& forall|k: int| 0 <= k < out.len() - 1 ==> #[trigger] out[k + 1].0 == out[k].0 + 1
            &&& frames.len() > 0 ==> out[0].0 == gap_start(last, frames[0])
            &&& frames.len() > 0 ==> out.last() == (frames.last(), true)
        }),
    decreases frames.len(),
{
    if frames.len() > 0 {
        let f = frames[0];
        let s = gap_start(last, f);
        let rest = frames.skip(1);
        lemma_contiguous_gap_free(Some(f), rest);
        let fill = Seq::new((f - s) as nat, |i: int| ((s + i) as u64, false));
        let head = fill + seq![(f, true)];
        let tail = contiguous_from(Some(f), rest);
        let out = contiguous_from(last, frames);
        assert(out == head + tail);
        if rest.len() > 0 {
            assert(rest[0] == frames[1]);
            assert(tail[0].0 == f + 1);
            assert(rest.last() == frames.last());
            assert(out.last() == tail.last());
        } else {
            assert(tail.len() == 0);
            assert(out =~= head);
        }
        assert forall|k: int| 0 <= k < out.len() - 1 implies #[trigger] out[k + 1].0 == out[k].0
            + 1 by {
            if k + 1 < fill.len() {
            } else if k + 1 == fill.len() {
                assert(out[k + 1] == (f, true));
            } else if k + 1 == head.len() {
                assert(out[k] == (f, true));
                assert(out[k + 1] == tail[0]);
            } else {
                assert(out[k] == tail[k - head.len()]);
                assert(out[k + 1] == tail[k - head.len() + 1]);
            }
        }
    }
}

/// Keeps the last frame number seen and computes the gaps to fill.
#[derive(Debug, Clone, Copy, PartialEq, Eq)]
pub struct ContiguityEnforcer {
    last: Option<u64>,
}

impl ContiguityEnforcer {
    /// The last frame number received, if any.
    pub closed spec fn last_seen(&self) -> Option<u64> {
        self.last
    }

    /// The last frame number received, if any.
    pub fn last(&self) -> (r: Option<u64>)
        ensures
            r == self.last_seen(),
    {
        self.last
    }

    /// An enforcer that has seen no frame.
    pub fn new() -> (r: Self)
        ensures
            r.last_seen() is None,
    {
        ContiguityEnforcer { last: None }
    }

    /// Receive `frame`: the frames from the returned gap's start up to, not
    /// including, `frame` are to be emitted empty before it. A frame not above
    /// the last one gets no gap. The sentinel frame number is refused.
    pub fn accept(&mut self, frame: u64) -> (r: Result<GapFill, ContiguityError>)
        ensures
            frame == SENTINEL_FRAME ==> r == Err::<GapFill, _>(
                ContiguityError::ReservedFrameNumber { frame },
            ) && final(self).last_seen() == old(self).last_seen(),
            frame != SENTINEL_FRAME ==> r == Ok::<_, ContiguityError>(
                GapFill { start: gap_start(old(self).last_seen(), frame), frame },
            ) && final(self).last_seen() == Some(frame),
    {
        if frame == SENTINEL_FRAME {
            return Err(ContiguityError::ReservedFrameNumber { frame });
        }
        let start = match self.last {
            Some(l) => if l < frame {
                l + 1
            } else {
                frame
            },
            None => frame,
        };
        self.last = Some(frame);
        Ok(GapFill { start, frame })
    }
}

/// Apply gap filling to a whole list of received frames: each received frame
/// appears as `(frame, true)`, each synthesized empty one as `(frame, false)`.
/// Fails on the first sentinel frame.
pub fn make_contiguous(frames: &Vec<u64>) -> (r: Result<Vec<(u64, bool)>, ContiguityError>)
    ensures
        no_sentinel(frames@) ==> (r matches Ok(v) && v@ == contiguous_from(None, frames@)),
        !no_sentinel(frames@) ==> r == Err::<Vec<(u64, bool)>, _>(
            ContiguityError::ReservedFrameNumber { frame: SENTINEL_FRAME },
        ),
{
    let mut enforcer = ContiguityEnforcer::new();
    let mut out: Vec<(u64, bool)> = Vec::new();
    let mut i: usize = 0;
    proof {
        assert(frames@.skip(0) =~= frames@);
        assert(out@ + contiguous_from(None, frames@) =~= contiguous_from(None, frames@));
    }
    while i < frames.len()
        invariant
            i <= frames.len(),
            no_sentinel(frames@.take(i as int)),
            i > 0 ==> enforcer.last_seen() == Some(frames@[i - 1]),
            i == 0 ==> enforcer.last_seen() is None,
            out@ + contiguous_from(enforcer.last_seen(), frames@.skip(i as int)) == contiguous_from(
                None,
                frames@,
            ),
        decreases frames.len() - i,
    {
        let f = frames[i];
        let ghost last = enforcer.last_seen();
        match enforcer.accept(f) {
            Err(e) => {
                proof {
                    assert(!no_sentinel(frames@)) by {
                        assert(frames@[i as int] == SENTINEL_FRAME);
                    }
                }
                return Err(e);
            },
            Ok(fill) => {
                let ghost before = out@;
                let mut g: u64 = fill.start;
                while g < f
                    invariant
                        fill.start <= g <= f,
                        fill.start == gap_start(last, f),
                        out@ == before + Seq::new((g - fill.start) as nat, |k: int| ((fill.start + k) as u64, false)),
                    decreases f - g,
                {
                    out.push((g, false));
                    g = g + 1;
                    proof {
                        assert(out@ =~= before + Seq::new((g - fill.start) as nat, |k: int| ((fill.start + k) as u64, false)));
                    }
                }
                out.push((f, true));
                proof {
                    let rest = frames@.skip(i as int);
                    assert(rest[0] == f);
                    assert(rest.skip(1) =~= frames@.skip(i + 1));
                    assert(out@ + contiguous_from(Some(f), frames@.skip(i + 1)) =~= before
                        + contiguous_from(last, rest));
                    assert(frames@.take(i + 1) =~= frames@.take(i as int).push(f));
                }
                i = i + 1;
            },
        }
    }
    proof {
        assert(frames@.take(i as int) =~= frames@);
        assert(frames@.skip(i as int) =~= Seq::<u64>::empty());
        assert(out@ =~= out@ + Seq::<(u64, bool)>::empty());
    }
    Ok(out)
}

} // verus!
