//! Multi-camera 3D tracking core: the integer and bookkeeping logic of the
//! tracking pipeline, with its contracts proved.

pub mod subsets;
pub mod histogram;
pub mod ordering;
pub mod contiguous;
pub mod bundler;
pub mod lifecycle;
pub mod coordinator;
pub mod records;
pub mod capture;
pub mod association;
