//! Rows persisted by the tracker that carry only integers and text.

use vstd::prelude::*;

verus! {

/// One data-association pairing: object `obj_id` was assigned point
/// `pt_idx` of camera `cam_num` on frame `frame`.
#[derive(Debug, Clone, Copy, PartialEq, Eq)]
pub struct DataAssocRow {
    pub obj_id: u32,
    pub frame: u64,
    pub cam_num: u8,
    pub pt_idx: u8,
}

impl DataAssocRow {
    /// The frame number, by which rows are ordered.
    pub fn key(&self) -> (r: u64)
        ensures
            r == self.frame,
    {
        self.frame
    }
}

/// The experiment identifier of a recording.
#[derive(Debug, Clone, PartialEq, Eq)]
pub struct ExperimentInfoRow {
    pub uuid: String,
}

/// Narrow a point index to a byte; the index must fit.
pub fn safe_u8(val: usize) -> (r: u8)
    requires
        val <= u8::MAX,
    ensures
        r == val,
{
    val as u8
}

/// One row saved for a camera's frame: a detected point, or the marker of a
/// frame in which the camera detected nothing.
#[derive(Debug, Clone, PartialEq, Eq)]
pub enum SavedRow<T> {
    Point(T),
    Empty,
}

/// The rows saved for one camera's frame: one per detected point; with no
/// point, a single empty-frame row when `save_empty_data2d`, else none.
pub fn into_save<T>(points: Vec<T>, save_empty_data2d: bool) -> (r: Vec<SavedRow<T>>)
    ensures
        points@.len() > 0 ==> r@ == points@.map_values(|p: T| SavedRow::Point(p)),
        points@.len() == 0 && save_empty_data2d ==> r@ == seq![SavedRow::<T>::Empty],
        points@.len() == 0 && !save_empty_data2d ==> r@.len() == 0,
{
    let n = points.len();
    if n == 0 {
        let mut r: Vec<SavedRow<T>> = Vec::new();
        if save_empty_data2d {
            r.push(SavedRow::Empty);
            proof {
                assert(r@ =~= seq![SavedRow::<T>::Empty]);
            }
        }
        return r;
    }
    let mut rest = points;
    let mut r: Vec<SavedRow<T>> = Vec::new();
    while rest.len() > 0
        invariant
            r@ + rest@.map_values(|p: T| SavedRow::Point(p)) == points@.map_values(
                |p: T| SavedRow::Point(p),
            ),
        decreases rest.len(),
    {
        let ghost before = rest@;
        let p = rest.remove(0);
        r.push(SavedRow::Point(p));
        proof {
            assert(before.map_values(|p: T| SavedRow::Point(p)) =~= seq![SavedRow::Point(p)]
                + rest@.map_values(|p: T| SavedRow::Point(p)));
            assert(r@ + rest@.map_values(|p: T| SavedRow::Point(p)) =~= points@.map_values(
                |p: T| SavedRow::Point(p),
            ));
        }
    }
    proof {
        assert(r@ =~= r@ + rest@.map_values(|p: T| SavedRow::Point(p)));
    }
    r
}

} // verus!
