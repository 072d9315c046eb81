use vstd::prelude::*;

use crate::geometry::{path_views, Path, Paths, Point};

verus! {

/// One node of a containment hierarchy: a contour, whether it bounds a hole,
/// and the nodes nested directly inside it, in the engine's order.
#[derive(Debug)]
pub struct PolyTree {
    children: Vec<PolyTree>,
    is_hole: bool,
    polygon: Path,
}

impl PolyTree {
    pub closed spec fn spec_children(self) -> Seq<PolyTree> {
        self.children@
    }

    pub closed spec fn spec_is_hole(self) -> bool {
        self.is_hole
    }

    pub closed spec fn spec_polygon(self) -> Seq<Point> {
        self.polygon@
    }
}

/// The contours of a node and all its descendants, depth first, pre-order.
pub closed spec fn tree_paths(t: PolyTree) -> Seq<Seq<Point>>
    decreases t,
{
    seq![t.polygon@] + forest_paths(t.children@)
}

/// The pre-order contours of a sequence of sibling trees, one after another.
pub closed spec fn forest_paths(ts: Seq<PolyTree>) -> Seq<Seq<Point>>
    decreases ts,
{
    if ts.len() == 0 {
        Seq::empty()
    } else {
        forest_paths(ts.drop_last()) + tree_paths(ts.last())
    }
}

/// The contours of the hole nodes among a node and its descendants, pre-order.
pub closed spec fn tree_holes(t: PolyTree) -> Seq<Seq<Point>>
    decreases t,
{
    (if t.is_hole {
        seq![t.polygon@]
    } else {
        Seq::empty()
    }) + forest_holes(t.children@)
}

/// The hole contours of a sequence of sibling trees, one after another.
pub closed spec fn forest_holes(ts: Seq<PolyTree>) -> Seq<Seq<Point>>
    decreases ts,
{
    if ts.len() == 0 {
        Seq::empty()
    } else {
        forest_holes(ts.drop_last()) + tree_holes(ts.last())
    }
}

impl PolyTree {
    /// Assembles a node from its parts.
    pub fn new(is_hole: bool, polygon: Path, children: Vec<PolyTree>) -> (r: PolyTree)
        ensures
            r.spec_is_hole() == is_hole,
            r.spec_polygon() == polygon@,
            r.spec_children() == children@,
    {
        PolyTree { children, is_hole, polygon }
    }

    /// The number of direct children of this node.
    pub fn child_count(&self) -> (r: usize)
        ensures
            r == self.spec_children().len(),
    {
        self.children.len()
    }

    /// The child at `index`, if there is one.
    pub fn get_child(&self, index: usize) -> (r: Option<&PolyTree>)
        ensures
            match r {
                Some(c) => index < self.spec_children().len() && *c == self.spec_children()[index as int],
                None => index >= self.spec_children().len(),
            },
    {
        if index < self.children.len() {
            Some(&self.children[index])
        } else {
            None
        }
    }

    /// The child at `index`, if there is one, for changing in place.
    pub fn get_child_mut(&mut self, index: usize) -> (r: Option<&mut PolyTree>)
        ensures
            index < old(self).spec_children().len() ==> r is Some,
            index >= old(self).spec_children().len() ==> r is None && *final(self) == *old(self),
            match r {
                Some(c) => {
                    &&& *c == old(self).spec_children()[index as int]
                    &&& final(self).spec_children() == old(self).spec_children().update(
                        index as int,
                        *final(c),
                    )
                    &&& final(self).spec_is_hole() == old(self).spec_is_hole()
                    &&& final(self).spec_polygon() == old(self).spec_polygon()
                },
                None => true,
            },
    {
        if index < self.children.len() {
            Some(&mut self.children[index])
        } else {
            None
        }
    }

    /// The direct children of this node, for changing in place.
    pub fn children_mut(&mut self) -> (r: &mut Vec<PolyTree>)
        ensures
            r@ == old(self).spec_children(),
            final(self).spec_children() == final(r)@,
            final(self).spec_is_hole() == old(self).spec_is_hole(),
            final(self).spec_polygon() == old(self).spec_polygon(),
    {
        &mut self.children
    }

    /// Whether this node bounds a hole.
    pub fn is_hole(&self) -> (r: bool)
        ensures
            r == self.spec_is_hole(),
    {
        self.is_hole
    }

    /// The contour of this node.
    pub fn polygon(&self) -> (r: &Path)
        ensures
            r@ == self.spec_polygon(),
    {
        &self.polygon
    }

    /// The direct children of this node, in order.
    pub fn children(&self) -> (r: &Vec<PolyTree>)
        ensures
            r@ == self.spec_children(),
    {
        &self.children
    }

    /// The contours of this node and all its descendants, depth first, pre-order.
    pub fn to_paths(&self) -> (r: Paths)
        ensures
            r@ == tree_paths(*self),
    {
        let mut paths: Vec<Path> = Vec::new();
        self.collect_paths(&mut paths);
        assert(path_views(paths@) =~= tree_paths(*self));
        Paths::new(paths)
    }

    fn collect_paths(&self, paths: &mut Vec<Path>)
        ensures
            path_views(final(paths)@) == path_views(old(paths)@) + tree_paths(*self),
        decreases *self,
    {
        let ghost start = path_views(paths@);
        paths.push(self.polygon.duplicate());
        proof {
            assert(path_views(paths@) =~= start + seq![self.polygon@]);
        }
        let mut i: usize = 0;
        while i < self.children.len()
            invariant
                i <= self.children@.len(),
                path_views(paths@) == start + seq![self.polygon@] + forest_paths(
                    self.children@.subrange(0, i as int),
                ),
            decreases self.children@.len() - i,
        {
            let ghost before = path_views(paths@);
            proof {
                assert(decreases_to!(*self => self.children@[i as int]));
            }
            self.children[i].collect_paths(paths);
            proof {
                let sub = self.children@.subrange(0, i + 1);
                assert(sub.drop_last() =~= self.children@.subrange(0, i as int));
                assert(forest_paths(sub) == forest_paths(sub.drop_last()) + tree_paths(
                    self.children@[i as int],
                ));
                assert(path_views(paths@) =~= start + seq![self.polygon@] + forest_paths(sub));
            }
            i = i + 1;
        }
        proof {
            assert(self.children@.subrange(0, i as int) =~= self.children@);
            assert(tree_paths(*self) == seq![self.polygon@] + forest_paths(self.children@));
            assert(path_views(paths@) =~= start + tree_paths(*self));
        }
    }

    /// The contours of the hole nodes among this node and its descendants,
    /// depth first, pre-order.
    pub fn get_hole_paths(&self) -> (r: Paths)
        ensures
            r@ == tree_holes(*self),
    {
        let mut paths: Vec<Path> = Vec::new();
        self.collect_hole_paths(&mut paths);
        assert(path_views(paths@) =~= tree_holes(*self));
        Paths::new(paths)
    }

    fn collect_hole_paths(&self, paths: &mut Vec<Path>)
        ensures
            path_views(final(paths)@) == path_views(old(paths)@) + tree_holes(*self),
        decreases *self,
    {
        let ghost start = path_views(paths@);
        let ghost own: Seq<Seq<Point>> = if self.is_hole {
            seq![self.polygon@]
        } else {
            Seq::empty()
        };
        if self.is_hole {
            paths.push(self.polygon.duplicate());
        }
        proof {
            assert(path_views(paths@) =~= start + own);
        }
        let mut i: usize = 0;
        while i < self.children.len()
            invariant
                i <= self.children@.len(),
                path_views(paths@) == start + own + forest_holes(self.children@.subrange(0, i as int)),
            decreases self.children@.len() - i,
        {
            proof {
                assert(decreases_to!(*self => self.children@[i as int]));
            }
            self.children[i].collect_hole_paths(paths);
            proof {
                let sub = self.children@.subrange(0, i + 1);
                assert(sub.drop_last() =~= self.children@.subrange(0, i as int));
                assert(forest_holes(sub) == forest_holes(sub.drop_last()) + tree_holes(
                    self.children@[i as int],
                ));
                assert(path_views(paths@) =~= start + own + forest_holes(sub));
            }
            i = i + 1;
        }
        proof {
            assert(self.children@.subrange(0, i as int) =~= self.children@);
            assert(tree_holes(*self) == own + forest_holes(self.children@));
            assert(path_views(paths@) =~= start + tree_holes(*self));
        }
    }
}

/// What the engine reports of one node of its tree: the hole flag, the
/// contour, and how many direct children follow it.
#[derive(Debug)]
pub struct NodeRecord {
    pub is_hole: bool,
    pub polygon: Path,
    pub child_count: usize,
}

pub type RecordView = (bool, Seq<Point>, nat);

pub open spec fn record_views(rs: Seq<NodeRecord>) -> Seq<RecordView> {
    rs.map_values(|r: NodeRecord| (r.is_hole, r.polygon@, r.child_count as nat))
}

/// The depth-first, pre-order record listing of a tree: a node's record, then
/// the listings of its children in order.
pub closed spec fn tree_records(t: PolyTree) -> Seq<RecordView>
    decreases t,
{
    seq![(t.is_hole, t.polygon@, t.children@.len())] + forest_records(t.children@)
}

/// The record listings of a sequence of sibling trees, one after another.
pub closed spec fn forest_records(ts: Seq<PolyTree>) -> Seq<RecordView>
    decreases ts,
{
    if ts.len() == 0 {
        Seq::empty()
    } else {
        forest_records(ts.drop_last()) + tree_records(ts.last())
    }
}

/// `t`'s listing stands in `rv` from position `pos` on.
spec fn listed_at(rv: Seq<RecordView>, pos: int, t: PolyTree) -> bool {
    &&& 0 <= pos
    &&& pos + tree_records(t).len() <= rv.len()
    &&& rv.subrange(pos, pos + tree_records(t).len()) == tree_records(t)
}

/// The listing of the first `j` trees is a prefix of the listing of them all.
proof fn lemma_forest_records_prefix(ts: Seq<PolyTree>, j: int)
    requires
        0 <= j <= ts.len(),
    ensures
        forest_records(ts.subrange(0, j)).len() <= forest_records(ts).len(),
        forest_records(ts).subrange(0, forest_records(ts.subrange(0, j)).len() as int)
            == forest_records(ts.subrange(0, j)),
    decreases ts.len(),
{
    if j == ts.len() {
        assert(ts.subrange(0, j) =~= ts);
        assert(forest_records(ts).subrange(0, forest_records(ts).len() as int) =~= forest_records(
            ts,
        ));
    } else {
        let init = ts.drop_last();
        assert(init.subrange(0, j) =~= ts.subrange(0, j));
        lemma_forest_records_prefix(init, j);
        let p = forest_records(ts.subrange(0, j));
        assert(forest_records(ts) == forest_records(init) + tree_records(ts.last()));
        assert(forest_records(ts).subrange(0, p.len() as int) =~= forest_records(init).subrange(
            0,
            p.len() as int,
        ));
    }
}

/// Where a tree is listed, its `j`-th child is listed right after the
/// listings of the children before it.
proof fn lemma_child_listed(rv: Seq<RecordView>, pos: int, t: PolyTree, j: int, cur: int)
    requires
        listed_at(rv, pos, t),
        0 <= j < t.children@.len(),
        cur == pos + 1 + forest_records(t.children@.subrange(0, j)).len(),
    ensures
        listed_at(rv, cur, t.children@[j]),
        forest_records(t.children@.subrange(0, j + 1)).len() == cur - pos - 1 + tree_records(
            t.children@[j],
        ).len(),
{
    let kids = t.children@;
    let sub = kids.subrange(0, j + 1);
    assert(sub.drop_last() =~= kids.subrange(0, j));
    assert(sub.last() == kids[j]);
    let fj = forest_records(kids.subrange(0, j));
    let c = tree_records(kids[j]);
    let a = fj.len() as int;
    let b = a + c.len();
    assert(forest_records(sub) == fj + c);
    lemma_forest_records_prefix(kids, j + 1);
    let all = forest_records(kids);
    assert(tree_records(t) == seq![(t.is_hole, t.polygon@, kids.len())] + all);
    let tr = tree_records(t);
    let end = pos + tr.len();
    assert(rv.subrange(cur, cur + c.len()) =~= tr.subrange(cur - pos, cur - pos + c.len()));
    assert(tr.subrange(cur - pos, cur - pos + c.len()) =~= all.subrange(a, b));
    assert(all.subrange(a, b) =~= forest_records(sub).subrange(a, b));
    assert(forest_records(sub).subrange(a, b) =~= c);
}

/// Two trees listed from the same position have the same listing, contours
/// and hole contours.
proof fn lemma_listed_same(rv: Seq<RecordView>, pos: int, a: PolyTree, b: PolyTree)
    requires
        listed_at(rv, pos, a),
        listed_at(rv, pos, b),
    ensures
        tree_records(a) == tree_records(b),
        tree_paths(a) == tree_paths(b),
        tree_holes(a) == tree_holes(b),
    decreases a, a.children@.len() + 1,
{
    let ra = tree_records(a);
    let rb = tree_records(b);
    assert(ra[0] == rv[pos]);
    assert(rb[0] == rv[pos]);
    let k = a.children@.len() as int;
    lemma_children_same(rv, pos, a, b, k);
    assert(a.children@.subrange(0, k) =~= a.children@);
    assert(b.children@.subrange(0, k) =~= b.children@);
}

/// The first `j` children of two trees listed from the same position have
/// the same listings, contours and hole contours.
proof fn lemma_children_same(rv: Seq<RecordView>, pos: int, a: PolyTree, b: PolyTree, j: int)
    requires
        listed_at(rv, pos, a),
        listed_at(rv, pos, b),
        a.children@.len() == b.children@.len(),
        0 <= j <= a.children@.len(),
    ensures
        forest_records(a.children@.subrange(0, j)) == forest_records(b.children@.subrange(0, j)),
        forest_paths(a.children@.subrange(0, j)) == forest_paths(b.children@.subrange(0, j)),
        forest_holes(a.children@.subrange(0, j)) == forest_holes(b.children@.subrange(0, j)),
    decreases a, j,
{
    let sa = a.children@.subrange(0, j);
    let sb = b.children@.subrange(0, j);
    if j > 0 {
        lemma_children_same(rv, pos, a, b, j - 1);
        let cur = pos + 1 + forest_records(a.children@.subrange(0, j - 1)).len();
        lemma_child_listed(rv, pos, a, j - 1, cur);
        lemma_child_listed(rv, pos, b, j - 1, cur);
        assert(decreases_to!(a => a.children@[j - 1]));
        lemma_listed_same(rv, cur, a.children@[j - 1], b.children@[j - 1]);
        assert(sa.drop_last() =~= a.children@.subrange(0, j - 1));
        assert(sb.drop_last() =~= b.children@.subrange(0, j - 1));
        assert(sa.last() == a.children@[j - 1]);
        assert(sb.last() == b.children@[j - 1]);
    } else {
        assert(sa.len() == 0 && sb.len() == 0);
    }
}

/// Equal engine listings rebuild into trees with equal flattened contours
/// and equal hole contours: the rebuilt tree depends on the listing alone.
pub proof fn lemma_same_listing_same_contours(a: PolyTree, b: PolyTree)
    requires
        tree_records(a) == tree_records(b),
    ensures
        tree_paths(a) == tree_paths(b),
        tree_holes(a) == tree_holes(b),
{
    let rv = tree_records(a);
    assert(rv.subrange(0, rv.len() as int) =~= rv);
    lemma_listed_same(rv, 0, a, b);
}

impl PolyTree {
    /// Rebuilds an owned tree from the engine's pre-order record listing.
    /// Returns `None` when the listing is not exactly the listing of one tree.
    pub fn from_records(records: &Vec<NodeRecord>) -> (r: Option<PolyTree>)
        ensures
            r matches Some(t) ==> tree_records(t) == record_views(records@),
            r is Some <==> exists|t: PolyTree| tree_records(t) == record_views(records@),
    {
        let ghost rv = record_views(records@);
        proof {
            assert forall|t: PolyTree| tree_records(t) == rv implies listed_at(rv, 0, t) by {
                assert(rv.subrange(0, rv.len() as int) =~= rv);
            }
        }
        match Self::parse_node(records, 0) {
            Some((t, end)) => {
                if end == records.len() {
                    assert(rv.subrange(0, end as int) =~= rv);
                    Some(t)
                } else {
                    None
                }
            },
            None => None,
        }
    }

    fn parse_node(records: &Vec<NodeRecord>, pos: usize) -> (r: Option<(PolyTree, usize)>)
        requires
            pos <= records@.len(),
        ensures
            r matches Some((t, end)) ==> pos < end <= records@.len() && record_views(
                records@,
            ).subrange(pos as int, end as int) == tree_records(t),
            r matches Some((t, end)) ==> forall|u: PolyTree| #[trigger]
                listed_at(record_views(records@), pos as int, u) ==> tree_records(u).len() == end
                    - pos,
            r is None ==> forall|u: PolyTree| !#[trigger] listed_at(record_views(records@), pos as int, u),
        decreases records@.len() - pos,
    {
        if pos >= records.len() {
            return None;
        }
        let ghost rv = record_views(records@);
        let rec = &records[pos];
        proof {
            assert forall|u: PolyTree| #[trigger] listed_at(rv, pos as int, u) implies u.children@.len()
                == rec.child_count && pos + 1 == pos + 1 + forest_records(
                u.children@.subrange(0, 0),
            ).len() by {
                let tr = tree_records(u);
                assert(tr[0] == (u.is_hole, u.polygon@, u.children@.len()));
                assert(rv[pos as int] == tr[0]);
                assert(forest_records(u.children@.subrange(0, 0)).len() == 0);
            }
        }
        let count = rec.child_count;
        let mut children: Vec<PolyTree> = Vec::new();
        let mut cur: usize = pos + 1;
        let mut j: usize = 0;
        while j < count
            invariant
                pos < cur <= records@.len(),
                j <= count,
                children@.len() == j,
                rv == record_views(records@),
                rv.subrange(pos + 1, cur as int) == forest_records(children@),
                count == records@[pos as int].child_count,
                forall|u: PolyTree| #[trigger]
                    listed_at(rv, pos as int, u) ==> u.children@.len() == count && cur == pos + 1
                        + forest_records(u.children@.subrange(0, j as int)).len(),
            decreases count - j,
        {
            let ghost at = cur;
            match Self::parse_node(records, cur) {
                Some((c, end)) => {
                    proof {
                        assert forall|u: PolyTree| #[trigger] listed_at(rv, pos as int, u) implies end
                            == pos + 1 + forest_records(u.children@.subrange(0, j + 1)).len() by {
                            lemma_child_listed(rv, pos as int, u, j as int, cur as int);
                            assert(listed_at(rv, cur as int, u.children@[j as int]));
                        }
                    }
                    let ghost old_children = children@;
                    children.push(c);
                    proof {
                        assert(children@.drop_last() =~= old_children);
                        assert(rv.subrange(pos + 1, end as int) =~= rv.subrange(pos + 1, cur as int)
                            + rv.subrange(cur as int, end as int));
                    }
                    cur = end;
                },
                None => {
                    proof {
                        assert forall|u: PolyTree| !#[trigger] listed_at(rv, pos as int, u) by {
                            if listed_at(rv, pos as int, u) {
                                lemma_child_listed(rv, pos as int, u, j as int, cur as int);
                            }
                        }
                    }
                    return None;
                },
            }
            j = j + 1;
        }
        let t = PolyTree { children, is_hole: rec.is_hole, polygon: rec.polygon.duplicate() };
        proof {
            assert forall|u: PolyTree| #[trigger] listed_at(rv, pos as int, u) implies tree_records(
                u,
            ).len() == cur - pos by {
                assert(u.children@.subrange(0, j as int) =~= u.children@);
            }
            assert(rv[pos as int] == (rec.is_hole, rec.polygon@, rec.child_count as nat));
            assert(rv.subrange(pos as int, cur as int) =~= seq![rv[pos as int]] + rv.subrange(
                pos + 1,
                cur as int,
            ));
        }
        Some((t, cur))
    }
}

} // verus!
