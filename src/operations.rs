use vstd::prelude::*;

use crate::clipper::{BooleanOperation, Clipper};
use crate::geometry::{ClipType, FillRule, Paths, Point};

verus! {

/// Joins a collection of closed subject contours with clip contours: the
/// union operation over one subject and one clip collection.
pub fn union(subject: Paths, clip: Paths, fill_rule: FillRule) -> (r: BooleanOperation)
    ensures
        r@.subjects == seq![subject@],
        r@.open_subjects == Seq::<Seq<Seq<Point>>>::empty(),
        r@.clips == seq![clip@],
        r@.clip_type == ClipType::Union,
        r@.fill_rule == fill_rule,
        !r@.tree,
{
    let r = Clipper::new().add_subject(subject).add_clip(clip).union(fill_rule);
    assert(r@.open_subjects =~= Seq::<Seq<Seq<Point>>>::empty());
    r
}

} // verus!
