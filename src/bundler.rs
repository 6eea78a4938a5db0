//! Bundling: per-camera records, tagged with a synchronized frame number,
//! are grouped into one bundle per frame. A bundle is complete once a record
//! for a later frame arrives; a record for a frame older than the one being
//! gathered arrives too late and is dropped.

use vstd::prelude::*;

verus! {

/// All records gathered for one synchronized frame number.
pub struct Bundle<T> {
    pub frame: u64,
    pub items: Vec<T>,
}

/// What a record did to the bundler.
#[derive(Debug, Clone, Copy, PartialEq, Eq)]
pub enum Arrival {
    /// It opened a new bundle (completing the previous one, if any).
    Opened,
    /// It joined the bundle being gathered.
    Joined,
    /// It was for an older frame and was dropped.
    DroppedLate,
}

/// Groups records into bundles by frame number.
pub struct FrameBundler<T> {
    pending: Option<Bundle<T>>,
}

impl<T> FrameBundler<T> {
    /// The bundle being gathered, as (frame, records).
    pub closed spec fn pending(&self) -> Option<(u64, Seq<T>)> {
        match self.pending {
            Some(b) => Some((b.frame, b.items@)),
            None => None,
        }
    }

    /// A bundler gathering nothing.
    pub fn new() -> (r: Self)
        ensures
            r.pending() is None,
    {
        FrameBundler { pending: None }
    }

    /// Whether no bundle is being gathered.
    pub fn is_idle(&self) -> (r: bool)
        ensures
            r == self.pending() is None,
    {
        self.pending.is_none()
    }

    /// Take in one record for `frame`. Returns what happened to it and the
    /// bundle it completed, if any.
    pub fn push(&mut self, frame: u64, item: T) -> (r: (Arrival, Option<Bundle<T>>))
        ensures
            match old(self).pending() {
                None => r.0 == Arrival::Opened && r.1 is None && final(self).pending() == Some(
                    (frame, seq![item]),
                ),
                Some((pf, items)) => if frame == pf {
                    r.0 == Arrival::Joined && r.1 is None && final(self).pending() == Some(
                        (pf, items.push(item)),
                    )
                } else if frame > pf {
                    r.0 == Arrival::Opened && (r.1 matches Some(b) && b.frame == pf && b.items@
                        == items) && final(self).pending() == Some((frame, seq![item]))
                } else {
                    r.0 == Arrival::DroppedLate && r.1 is None && final(self).pending()
                        == old(self).pending()
                },
            },
    {
        match self.pending.take() {
            None => {
                let mut items: Vec<T> = Vec::new();
                items.push(item);
                self.pending = Some(Bundle { frame, items });
                (Arrival::Opened, None)
            },
            Some(mut b) => {
                if frame == b.frame {
                    b.items.push(item);
                    self.pending = Some(b);
                    (Arrival::Joined, None)
                } else if frame > b.frame {
                    let mut items: Vec<T> = Vec::new();
                    items.push(item);
                    self.pending = Some(Bundle { frame, items });
                    (Arrival::Opened, Some(b))
                } else {
                    self.pending = Some(b);
                    (Arrival::DroppedLate, None)
                }
            },
        }
    }

    /// The input has ended: hand out the bundle being gathered, if any.
    pub fn finish(&mut self) -> (r: Option<Bundle<T>>)
        ensures
            final(self).pending() is None,
            match old(self).pending() {
                None => r is None,
                Some((pf, items)) => r matches Some(b) && b.frame == pf && b.items@ == items,
            },
    {
        self.pending.take()
    }
}

} // verus!
