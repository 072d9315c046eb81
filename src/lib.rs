//! Safe orchestration of polygon boolean operations: geometry registration
//! through a typestate builder, the engine call script it produces, and the
//! owned result values, flat or hierarchical.
use vstd::prelude::*;

pub mod clipper;
pub mod geometry;
pub mod operations;
pub mod polytree;

pub use clipper::{
    BooleanOperation, BooleanResult, BooleanTreeResult, Category, Clipper, ClipperError,
    ClipperState, EngineCall, NoSubjects, WithClips, WithSubjects,
};
pub use geometry::{ClipType, FillRule, Path, Paths, Point};
pub use operations::union;
pub use polytree::{NodeRecord, PolyTree};

verus! {

} // verus!
