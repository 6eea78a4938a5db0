//! The ingest side of the tracking loop: each per-camera record is checked,
//! bundled by frame, and each completed bundle is preceded by the empty
//! frames that fill the gap before it. Frame numbers handed to the lifecycle
//! engine never decrease.

use crate::bundler::{Arrival, Bundle, FrameBundler};
use crate::contiguous::{gap_start, ContiguityEnforcer, ContiguityError, GapFill, SENTINEL_FRAME};
use vstd::prelude::*;

verus! {

/// A fatal fault of the frame stream; tracking cannot go on.
#[derive(Debug, Clone, Copy, PartialEq, Eq)]
pub enum CoordinatorError {
    /// A record carried the reserved sentinel frame number.
    ImpossibleFrame { frame: u64 },
    /// A bundle's frame number was below the one processed before it.
    FrameDecreased { prev: u64, frame: u64 },
}

/// Refuse a raw record whose frame number is the sentinel.
pub fn check_raw_frame(frame: u64) -> (r: Result<(), CoordinatorError>)
    ensures
        r is Err <==> frame == SENTINEL_FRAME,
        r is Err ==> r == Err::<(), _>(CoordinatorError::ImpossibleFrame { frame }),
{
    if frame == SENTINEL_FRAME {
        Err(CoordinatorError::ImpossibleFrame { frame })
    } else {
        Ok(())
    }
}

/// Remembers the last frame processed and refuses one below it.
#[derive(Debug, Clone, Copy, PartialEq, Eq)]
pub struct FrameOrderGuard {
    pub prev: u64,
}

impl FrameOrderGuard {
    /// A guard that has processed nothing; frame numbers start at zero.
    pub fn new() -> (r: Self)
        ensures
            r.prev == 0,
    {
        FrameOrderGuard { prev: 0 }
    }

    /// Accept `frame` unless it is below the previous one.
    pub fn check(&mut self, frame: u64) -> (r: Result<(), CoordinatorError>)
        ensures
            frame < old(self).prev ==> r == Err::<(), _>(
                CoordinatorError::FrameDecreased { prev: old(self).prev, frame },
            ) && *final(self) == *old(self),
            frame >= old(self).prev ==> r is Ok && final(self).prev == frame,
    {
        if frame < self.prev {
            return Err(CoordinatorError::FrameDecreased { prev: self.prev, frame });
        }
        self.prev = frame;
        Ok(())
    }
}

/// A completed bundle with the empty frames to emit before it.
pub struct ContiguousBundle<T> {
    pub fill: GapFill,
    pub bundle: Bundle<T>,
}

/// Bundler, gap filling and frame-order guard, chained.
pub struct IngestPipeline<T> {
    bundler: FrameBundler<T>,
    enforcer: ContiguityEnforcer,
    guard: FrameOrderGuard,
}

impl<T> IngestPipeline<T> {
    /// The bundle being gathered.
    pub closed spec fn pending(&self) -> Option<(u64, Seq<T>)> {
        self.bundler.pending()
    }

    /// The frame of the last bundle handed out, if any.
    pub closed spec fn last_emitted(&self) -> Option<u64> {
        self.enforcer.last_seen()
    }

    /// The bundle being gathered is newer than every bundle handed out.
    pub closed spec fn wf(&self) -> bool {
        &&& self.pending() matches Some((pf, _)) ==> pf != SENTINEL_FRAME && (
        self.last_emitted() matches Some(l) ==> l < pf)
        &&& self.last_emitted() matches Some(l) ==> self.guard.prev == l
        &&& self.last_emitted() is None ==> self.guard.prev == 0
    }

    /// A pipeline that has seen nothing.
    pub fn new() -> (r: Self)
        ensures
            r.wf(),
            r.pending() is None,
            r.last_emitted() is None,
    {
        IngestPipeline {
            bundler: FrameBundler::new(),
            enforcer: ContiguityEnforcer::new(),
            guard: FrameOrderGuard::new(),
        }
    }

    /// Hand out a completed bundle, with its gap, through the order guard.
    fn emit(&mut self, bundle: Bundle<T>) -> (r: ContiguousBundle<T>)
        requires
            bundle.frame != SENTINEL_FRAME,
            old(self).last_emitted() matches Some(l) ==> l < bundle.frame,
            old(self).last_emitted() matches Some(l) ==> old(self).guard.prev == l,
            old(self).last_emitted() is None ==> old(self).guard.prev == 0,
        ensures
            final(self).last_emitted() == Some(bundle.frame),
            final(self).guard.prev == bundle.frame,
            final(self).bundler == old(self).bundler,
            r.bundle == bundle,
            r.fill == (GapFill { start: gap_start(old(self).last_emitted(), bundle.frame), frame: bundle.frame }),
    {
        let frame = bundle.frame;
        let fill = match self.enforcer.accept(frame) {
            Ok(fill) => fill,
            Err(ContiguityError::ReservedFrameNumber { frame: f }) => {
                proof {
                    assert(false);
                }
                GapFill { start: f, frame: f }
            },
        };
        match self.guard.check(frame) {
            Ok(()) => {},
            Err(_) => {
                proof {
                    assert(false);
                }
            },
        }
        ContiguousBundle { fill, bundle }
    }

    /// Take in one record for `frame`. A record with the sentinel frame
    /// number is fatal. Otherwise the record is bundled, and the bundle it
    /// completes, if any, is handed out with the gap before it.
    pub fn ingest(&mut self, frame: u64, item: T) -> (r: Result<
        (Arrival, Option<ContiguousBundle<T>>),
        CoordinatorError,
    >)
        requires
            old(self).wf(),
        ensures
            final(self).wf(),
            r matches Ok((_, Some(cb))) ==> (old(self).last_emitted() matches Some(l) ==> l
                < cb.bundle.frame),
            frame == SENTINEL_FRAME ==> r == Err::<(Arrival, Option<ContiguousBundle<T>>), _>(
                CoordinatorError::ImpossibleFrame { frame },
            ) && final(self).pending() == old(self).pending() && final(self).last_emitted()
                == old(self).last_emitted(),
            frame != SENTINEL_FRAME ==> (r matches Ok((arrival, out)) && match old(self).pending() {
                None => if old(self).last_emitted() matches Some(l) && frame <= l {
                    arrival == Arrival::DroppedLate && out is None && final(self).pending() is None
                        && final(self).last_emitted() == old(self).last_emitted()
                } else {
                    arrival == Arrival::Opened && out is None && final(self).pending() == Some(
                        (frame, seq![item]),
                    ) && final(self).last_emitted() == old(self).last_emitted()
                },
                Some((pf, items)) => if frame == pf {
                    arrival == Arrival::Joined && out is None && final(self).pending() == Some(
                        (pf, items.push(item)),
                    ) && final(self).last_emitted() == old(self).last_emitted()
                } else if frame > pf {
                    arrival == Arrival::Opened && (out matches Some(cb) && cb.bundle.frame == pf
                        && cb.bundle.items@ == items && cb.fill == (GapFill {
                        start: gap_start(old(self).last_emitted(), pf),
                        frame: pf,
                    })) && final(self).pending() == Some((frame, seq![item]))
                        && final(self).last_emitted() == Some(pf)
                } else {
                    arrival == Arrival::DroppedLate && out is None && final(self).pending()
                        == old(self).pending() && final(self).last_emitted()
                        == old(self).last_emitted()
                },
            }),
    {
        if frame == SENTINEL_FRAME {
            return Err(CoordinatorError::ImpossibleFrame { frame });
        }
        if let Some(l) = self.enforcer.last() {
            if frame <= l && self.bundler.is_idle() {
                return Ok((Arrival::DroppedLate, None));
            }
        }
        let (arrival, completed) = self.bundler.push(frame, item);
        match completed {
            None => Ok((arrival, None)),
            Some(bundle) => {
                let cb = self.emit(bundle);
                Ok((arrival, Some(cb)))
            },
        }
    }

    /// The input has ended: hand out the bundle being gathered, if any, with
    /// the gap before it.
    pub fn finish(&mut self) -> (r: Option<ContiguousBundle<T>>)
        requires
            old(self).wf(),
        ensures
            final(self).wf(),
            final(self).pending() is None,
            r matches Some(cb) ==> (old(self).last_emitted() matches Some(l) ==> l
                < cb.bundle.frame),
            match old(self).pending() {
                None => r is None && final(self).last_emitted() == old(self).last_emitted(),
                Some((pf, items)) => r matches Some(cb) && cb.bundle.frame == pf
                    && cb.bundle.items@ == items && cb.fill == (GapFill {
                    start: gap_start(old(self).last_emitted(), pf),
                    frame: pf,
                }) && final(self).last_emitted() == Some(pf),
            },
    {
        match self.bundler.finish() {
            None => None,
            Some(bundle) => Some(self.emit(bundle)),
        }
    }
}

} // verus!
