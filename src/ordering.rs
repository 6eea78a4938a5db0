//! A buffer that hands rows on to a sink in ascending frame order.
//!
//! Rows are kept in groups, one per frame number, sorted by frame. When more
//! frames are buffered than the configured bound, the oldest groups beyond the
//! bound are handed back for writing; on close, everything left is.
//!
//! The groups live in a `Vec` sorted by frame, with "frames strictly
//! increase" as its invariant, rather than in a `BTreeMap`: the contracts
//! speak of frame order and of taking the oldest frames off the front, and
//! vstd gives a `BTreeMap` an unordered `Map` view, with no first-key,
//! pop-first or split-off operation to take them from.

use vstd::prelude::*;

verus! {

/// The number of frames buffered before the oldest are flushed.
pub const DEFAULT_BUFFER_FRAMES: usize = 1000;

/// The buffered groups as (frame, rows).
pub open spec fn group_view<T>(g: Seq<(u64, Vec<T>)>) -> Seq<(u64, Seq<T>)> {
    g.map_values(|e: (u64, Vec<T>)| (e.0, e.1@))
}

/// Frames strictly increase along the groups.
pub open spec fn frames_increasing<T>(g: Seq<(u64, Seq<T>)>) -> bool {
    forall|i: int, j: int| 0 <= i < j < g.len() ==> g[i].0 < g[j].0
}

/// The rows of the groups, group after group.
pub open spec fn flatten<T>(g: Seq<(u64, Seq<T>)>) -> Seq<T>
    decreases g.len(),
{
    if g.len() == 0 {
        Seq::empty()
    } else {
        g[0].1 + flatten(g.skip(1))
    }
}

/// The frame of each row of the groups, group after group.
pub open spec fn row_frames<T>(g: Seq<(u64, Seq<T>)>) -> Seq<u64>
    decreases g.len(),
{
    if g.len() == 0 {
        Seq::empty()
    } else {
        Seq::new(g[0].1.len(), |i: int| g[0].0) + row_frames(g.skip(1))
    }
}

/// The groups after adding `row` for `frame`: appended to that frame's group,
/// or in a new group at its place in frame order.
pub open spec fn insert_row<T>(g: Seq<(u64, Seq<T>)>, frame: u64, row: T) -> Seq<(u64, Seq<T>)>
    decreases g.len(),
{
    if g.len() == 0 {
        seq![(frame, seq![row])]
    } else if g[0].0 == frame {
        g.update(0, (frame, g[0].1.push(row)))
    } else if g[0].0 > frame {
        seq![(frame, seq![row])] + g
    } else {
        seq![g[0]] + insert_row(g.skip(1), frame, row)
    }
}

/// `insert_row` at the position `p` that frame order gives.
proof fn lemma_insert_row_at<T>(g: Seq<(u64, Seq<T>)>, frame: u64, row: T, p: int)
    requires
        0 <= p <= g.len(),
        forall|j: int| 0 <= j < p ==> g[j].0 < frame,
        p < g.len() ==> g[p].0 >= frame,
    ensures
        insert_row(g, frame, row) == if p < g.len() && g[p].0 == frame {
            g.update(p, (frame, g[p].1.push(row)))
        } else {
            g.insert(p, (frame, seq![row]))
        },
    decreases p,
{
    if p > 0 {
        let t = g.skip(1);
        lemma_insert_row_at(t, frame, row, p - 1);
        if p < g.len() && g[p].0 == frame {
            assert(seq![g[0]] + t.update(p - 1, (frame, t[p - 1].1.push(row))) =~= g.update(
                p,
                (frame, g[p].1.push(row)),
            ));
        } else {
            assert(seq![g[0]] + t.insert(p - 1, (frame, seq![row])) =~= g.insert(
                p,
                (frame, seq![row]),
            ));
        }
    } else if g.len() > 0 {
        if g[0].0 != frame {
            assert(seq![(frame, seq![row])] + g =~= g.insert(0, (frame, seq![row])));
        }
    } else {
        assert(seq![(frame, seq![row])] =~= g.insert(0, (frame, seq![row])));
    }
}

/// Adding a row keeps the frames strictly increasing.
pub proof fn lemma_insert_row_keeps_order<T>(g: Seq<(u64, Seq<T>)>, frame: u64, row: T)
    requires
        frames_increasing(g),
    ensures
        frames_increasing(insert_row(g, frame, row)),
        insert_row(g, frame, row).len() == g.len() + if exists|j: int|
            0 <= j < g.len() && g[j].0 == frame {
            0int
        } else {
            1int
        },
    decreases g.len(),
{
    if g.len() > 0 && g[0].0 < frame {
        let t = g.skip(1);
        lemma_insert_row_keeps_order(t, frame, row);
        let r = insert_row(t, frame, row);
        assert forall|j: int| 0 <= j < r.len() implies g[0].0 < #[trigger] r[j].0 by {
            lemma_insert_row_members(t, frame, row, j);
        }
        assert((exists|j: int| 0 <= j < g.len() && g[j].0 == frame) <==> (exists|j: int|
            0 <= j < t.len() && t[j].0 == frame)) by {
            if exists|j: int| 0 <= j < g.len() && g[j].0 == frame {
                let j = choose|j: int| 0 <= j < g.len() && g[j].0 == frame;
                assert(t[j - 1].0 == frame);
            }
            if exists|j: int| 0 <= j < t.len() && t[j].0 == frame {
                let j = choose|j: int| 0 <= j < t.len() && t[j].0 == frame;
                assert(g[j + 1].0 == frame);
            }
        }
    } else if g.len() > 0 && g[0].0 > frame {
        assert forall|j: int| 0 <= j < g.len() implies g[j].0 != frame by {
            if j > 0 {
                assert(g[0].0 < g[j].0);
            }
        }
    } else if g.len() > 0 {
        assert(exists|j: int| 0 <= j < g.len() && g[j].0 == frame) by {
            assert(g[0].0 == frame);
        }
    }
}

/// Each group after adding a row has the new row's frame or one it had.
proof fn lemma_insert_row_members<T>(g: Seq<(u64, Seq<T>)>, frame: u64, row: T, j: int)
    requires
        0 <= j < insert_row(g, frame, row).len(),
    ensures
        insert_row(g, frame, row)[j].0 == frame || exists|k: int|
            0 <= k < g.len() && g[k].0 == insert_row(g, frame, row)[j].0,
    decreases g.len(),
{
    if g.len() > 0 && g[0].0 < frame {
        if j > 0 {
            lemma_insert_row_members(g.skip(1), frame, row, j - 1);
            let v = insert_row(g, frame, row)[j].0;
            if v != frame {
                let k = choose|k: int| 0 <= k < g.skip(1).len() && g.skip(1)[k].0 == v;
                assert(g[k + 1].0 == v);
            }
        } else {
            assert(g[0].0 == insert_row(g, frame, row)[0].0);
        }
    } else if g.len() > 0 && g[0].0 > frame {
        if j > 0 {
            assert(g[j - 1].0 == insert_row(g, frame, row)[j].0);
        }
    } else if g.len() > 0 {
        if j > 0 {
            assert(g[j].0 == insert_row(g, frame, row)[j].0);
        }
    }
}

/// Groups in frame order hand out their rows in ascending frame order, and
/// each of the first `n` groups holds an older frame than any group after.
pub proof fn lemma_flush_in_frame_order<T>(g: Seq<(u64, Seq<T>)>, n: int)
    requires
        frames_increasing(g),
        0 <= n <= g.len(),
    ensures
        forall|i: int, j: int| 0 <= i < j < row_frames(g).len() ==> row_frames(g)[i] <= row_frames(g)[j],
        forall|i: int, j: int| 0 <= i < n <= j < g.len() ==> g[i].0 < g[j].0,
    decreases g.len(),
{
    if g.len() > 0 {
        let t = g.skip(1);
        lemma_flush_in_frame_order(t, 0);
        lemma_row_frames_bounded(t, g[0].0);
        let head = Seq::new(g[0].1.len(), |i: int| g[0].0);
        assert(row_frames(g) == head + row_frames(t));
    }
}

/// Every row frame of groups whose frames exceed `f` exceeds `f`.
proof fn lemma_row_frames_bounded<T>(g: Seq<(u64, Seq<T>)>, f: u64)
    requires
        forall|j: int| 0 <= j < g.len() ==> g[j].0 > f,
    ensures
        forall|i: int| 0 <= i < row_frames(g).len() ==> row_frames(g)[i] > f,
    decreases g.len(),
{
    if g.len() > 0 {
        let t = g.skip(1);
        lemma_row_frames_bounded(t, f);
        let head = Seq::new(g[0].1.len(), |i: int| g[0].0);
        assert(row_frames(g) == head + row_frames(t));
        assert forall|i: int| 0 <= i < row_frames(g).len() implies row_frames(g)[i] > f by {
            if i >= head.len() {
                assert(row_frames(g)[i] == row_frames(t)[i - head.len()]);
            }
        }
    }
}

/// Buffers rows by frame and releases them in ascending frame order.
pub struct OrderingWriter<T> {
    buffer: Vec<(u64, Vec<T>)>,
    bound: usize,
}

impl<T> View for OrderingWriter<T> {
    type V = Seq<(u64, Seq<T>)>;

    closed spec fn view(&self) -> Seq<(u64, Seq<T>)> {
        group_view(self.buffer@)
    }
}

/// Move all rows of `groups` out, group after group.
fn take_rows<T>(groups: Vec<(u64, Vec<T>)>) -> (r: Vec<T>)
    ensures
        r@ == flatten(group_view(groups@)),
{
    let mut rest = groups;
    let mut out: Vec<T> = Vec::new();
    while rest.len() > 0
        invariant
            out@ + flatten(group_view(rest@)) == flatten(group_view(groups@)),
        decreases rest.len(),
    {
        let ghost before = group_view(rest@);
        let (_frame, mut rows) = rest.remove(0);
        proof {
            assert(group_view(rest@) =~= before.skip(1));
            assert(out@ + rows@ + flatten(group_view(rest@)) =~= out@ + flatten(before));
        }
        out.append(&mut rows);
    }
    proof {
        assert(flatten(group_view(rest@)) =~= Seq::<T>::empty());
        assert(out@ =~= out@ + Seq::<T>::empty());
    }
    out
}

impl<T> OrderingWriter<T> {
    /// The number of frames held before the oldest are released.
    pub closed spec fn bound(&self) -> nat {
        self.bound as nat
    }

    /// The buffered frames strictly increase.
    pub open spec fn wf(&self) -> bool {
        frames_increasing(self@)
    }

    /// An empty buffer holding up to `bound` frames.
    pub fn new(bound: usize) -> (r: Self)
        ensures
            r.wf(),
            r@ == Seq::<(u64, Seq<T>)>::empty(),
            r.bound() == bound,
    {
        let r = OrderingWriter { buffer: Vec::new(), bound };
        proof {
            assert(r@ =~= Seq::<(u64, Seq<T>)>::empty());
        }
        r
    }

    /// The number of frames buffered.
    pub fn len(&self) -> (r: usize)
        ensures
            r == self@.len(),
    {
        self.buffer.len()
    }

    /// Buffer `row` for `frame`. If that makes more frames than the bound,
    /// the oldest frames beyond it are removed and their rows returned, in
    /// ascending frame order, for writing.
    pub fn serialize(&mut self, frame: u64, row: T) -> (flushed: Vec<T>)
        requires
            old(self).wf(),
        ensures
            final(self).wf(),
            final(self).bound() == old(self).bound(),
            ({
                let g = insert_row(old(self)@, frame, row);
                if g.len() > old(self).bound() {
                    let n = g.len() - old(self).bound();
                    flushed@ == flatten(g.take(n)) && final(self)@ == g.skip(n)
                } else {
                    flushed@ == Seq::<T>::empty() && final(self)@ == g
                }
            }),
    {
        let ghost g0 = self@;
        let mut p: usize = 0;
        while p < self.buffer.len() && self.buffer[p].0 < frame
            invariant
                p <= self.buffer.len(),
                self@ == g0,
                forall|j: int| 0 <= j < p ==> g0[j].0 < frame,
            decreases self.buffer.len() - p,
        {
            proof {
                assert(g0[p as int].0 == self.buffer@[p as int].0);
            }
            p = p + 1;
        }
        proof {
            if p < g0.len() {
                assert(g0[p as int].0 == self.buffer@[p as int].0);
            }
            lemma_insert_row_at(g0, frame, row, p as int);
            lemma_insert_row_keeps_order(g0, frame, row);
        }
        if p < self.buffer.len() && self.buffer[p].0 == frame {
            let (f, mut rows) = self.buffer.remove(p);
            rows.push(row);
            self.buffer.insert(p, (f, rows));
            proof {
                assert(self@ =~= g0.update(p as int, (frame, g0[p as int].1.push(row))));
            }
        } else {
            let mut rows: Vec<T> = Vec::new();
            rows.push(row);
            self.buffer.insert(p, (frame, rows));
            proof {
                assert(self@ =~= g0.insert(p as int, (frame, seq![row])));
            }
        }
        let ghost g = self@;
        if self.buffer.len() > self.bound {
            let n: usize = self.buffer.len() - self.bound;
            let mut head = self.buffer.split_off(n);
            std::mem::swap(&mut self.buffer, &mut head);
            proof {
                assert(group_view(head@) =~= g.take(n as int));
                assert(self@ =~= g.skip(n as int));
            }
            take_rows(head)
        } else {
            Vec::new()
        }
    }

    /// Remove every buffered row and return them in ascending frame order.
    pub fn close(&mut self) -> (flushed: Vec<T>)
        requires
            old(self).wf(),
        ensures
            final(self).wf(),
            final(self)@ == Seq::<(u64, Seq<T>)>::empty(),
            final(self).bound() == old(self).bound(),
            flushed@ == flatten(old(self)@),
    {
        let mut all: Vec<(u64, Vec<T>)> = Vec::new();
        std::mem::swap(&mut self.buffer, &mut all);
        proof {
            assert(self@ =~= Seq::<(u64, Seq<T>)>::empty());
        }
        take_rows(all)
    }
}

} // verus!
