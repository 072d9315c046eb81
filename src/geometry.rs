use vstd::arithmetic::div_mod::{lemma_mod_self_0, lemma_small_mod};
use vstd::prelude::*;

verus! {

/// A point on the engine's fixed integer grid.
#[derive(Clone, Copy, Debug, PartialEq, Eq, Structural)]
pub struct Point {
    pub x: i64,
    pub y: i64,
}

impl Point {
    pub fn new(x: i64, y: i64) -> (r: Point)
        ensures
            r.x == x,
            r.y == y,
    {
        Point { x, y }
    }
}

/// One contour: an ordered sequence of points. No closing edge is implied.
#[derive(Debug, Clone, PartialEq, Eq)]
pub struct Path {
    points: Vec<Point>,
}

impl View for Path {
    type V = Seq<Point>;

    closed spec fn view(&self) -> Seq<Point> {
        self.points@
    }
}

impl Path {
    pub fn new(points: Vec<Point>) -> (r: Path)
        ensures
            r@ == points@,
    {
        Path { points }
    }

    pub fn len(&self) -> (r: usize)
        ensures
            r == self@.len(),
    {
        self.points.len()
    }

    pub fn points(&self) -> (r: &Vec<Point>)
        ensures
            r@ == self@,
    {
        &self.points
    }

    pub fn into_points(self) -> (r: Vec<Point>)
        ensures
            r@ == self@,
    {
        self.points
    }

    /// An independently owned copy of this contour.
    pub fn duplicate(&self) -> (r: Path)
        ensures
            r@ == self@,
    {
        let mut points: Vec<Point> = Vec::new();
        let mut i: usize = 0;
        while i < self.points.len()
            invariant
                i <= self.points@.len(),
                points@ == self.points@.subrange(0, i as int),
            decreases self.points@.len() - i,
        {
            points.push(self.points[i]);
            i = i + 1;
        }
        assert(points@ =~= self.points@);
        Path { points }
    }
}

/// The shoelace term of the edge from point `i` to the next one, wrapping
/// round to the first point after the last.
pub open spec fn shoelace_term(pts: Seq<Point>, i: int) -> int {
    let a = pts[i];
    let b = pts[(i + 1) % (pts.len() as int)];
    a.x * b.y - b.x * a.y
}

/// The sum of the first `k` shoelace terms.
pub open spec fn shoelace_sum(pts: Seq<Point>, k: int) -> int
    decreases k,
{
    if k <= 0 {
        0
    } else {
        shoelace_sum(pts, k - 1) + shoelace_term(pts, k - 1)
    }
}

pub open spec fn fits_i128(v: int) -> bool {
    i128::MIN <= v <= i128::MAX
}

/// Every shoelace term and every running sum of them fits an `i128`.
pub open spec fn shoelace_fits(pts: Seq<Point>) -> bool {
    &&& forall|i: int| 0 <= i < pts.len() ==> fits_i128(#[trigger] shoelace_term(pts, i))
    &&& forall|k: int| 0 <= k <= pts.len() ==> fits_i128(#[trigger] shoelace_sum(pts, k))
}

proof fn lemma_product_fits(u: i64, v: i64)
    ensures
        -0x4000_0000_0000_0000_0000_0000_0000_0000 <= (u as int) * (v as int)
            <= 0x4000_0000_0000_0000_0000_0000_0000_0000,
{
    let (a, b) = (u as int, v as int);
    assert(-0x4000_0000_0000_0000_0000_0000_0000_0000 <= a * b <= 0x4000_0000_0000_0000_0000_0000_0000_0000)
        by (nonlinear_arith)
        requires
            -0x8000_0000_0000_0000 <= a <= 0x7fff_ffff_ffff_ffff,
            -0x8000_0000_0000_0000 <= b <= 0x7fff_ffff_ffff_ffff,
    ;
}

impl Path {
    /// Twice the signed area enclosed by this contour, closed back to its
    /// first point: positive for counter-clockwise winding. `None` when a
    /// term or a running sum of the computation leaves the `i128` range.
    pub fn twice_signed_area(&self) -> (r: Option<i128>)
        ensures
            r is Some <==> shoelace_fits(self@),
            r matches Some(v) ==> v == shoelace_sum(self@, self@.len() as int),
    {
        let n = self.points.len();
        let ghost pts = self@;
        let mut acc: i128 = 0;
        let mut i: usize = 0;
        while i < n
            invariant
                n == pts.len(),
                pts == self.points@,
                i <= n,
                acc == shoelace_sum(pts, i as int),
                forall|j: int| 0 <= j < i ==> fits_i128(#[trigger] shoelace_term(pts, j)),
                forall|k: int| 0 <= k <= i ==> fits_i128(#[trigger] shoelace_sum(pts, k)),
            decreases n - i,
        {
            let a = self.points[i];
            let next: usize = if i + 1 == n { 0 } else { i + 1 };
            let b = self.points[next];
            proof {
                if i + 1 == n {
                    lemma_mod_self_0(n as int);
                } else {
                    lemma_small_mod((i + 1) as nat, n as nat);
                }
                lemma_product_fits(a.x, b.y);
                lemma_product_fits(b.x, a.y);
            }
            let p = (a.x as i128) * (b.y as i128);
            let q = (b.x as i128) * (a.y as i128);
            match p.checked_sub(q) {
                Some(term) => {
                    assert(term == shoelace_term(pts, i as int));
                    match acc.checked_add(term) {
                        Some(next_acc) => {
                            acc = next_acc;
                        },
                        None => {
                            proof {
                                assert(!fits_i128(shoelace_sum(pts, i + 1)));
                            }
                            return None;
                        },
                    }
                },
                None => {
                    proof {
                        assert(!fits_i128(shoelace_term(pts, i as int)));
                    }
                    return None;
                },
            }
            i = i + 1;
        }
        Some(acc)
    }
}

/// A collection of contours, in the order they were produced or added.
#[derive(Debug, Clone, PartialEq, Eq)]
pub struct Paths {
    paths: Vec<Path>,
}

pub open spec fn path_views(v: Seq<Path>) -> Seq<Seq<Point>> {
    v.map_values(|p: Path| p@)
}

impl View for Paths {
    type V = Seq<Seq<Point>>;

    closed spec fn view(&self) -> Seq<Seq<Point>> {
        path_views(self.paths@)
    }
}

impl Paths {
    pub fn new(paths: Vec<Path>) -> (r: Paths)
        ensures
            r@ == path_views(paths@),
    {
        Paths { paths }
    }

    /// A collection holding no contour.
    pub fn empty() -> (r: Paths)
        ensures
            r@ == Seq::<Seq<Point>>::empty(),
    {
        let r = Paths { paths: Vec::new() };
        assert(r@ =~= Seq::<Seq<Point>>::empty());
        r
    }

    pub fn len(&self) -> (r: usize)
        ensures
            r == self@.len(),
    {
        self.paths.len()
    }

    pub fn paths(&self) -> (r: &Vec<Path>)
        ensures
            path_views(r@) == self@,
    {
        &self.paths
    }

    pub fn into_paths(self) -> (r: Vec<Path>)
        ensures
            path_views(r@) == self@,
    {
        self.paths
    }

    /// An independently owned copy of this collection.
    pub fn duplicate(&self) -> (r: Paths)
        ensures
            r@ == self@,
    {
        let mut paths: Vec<Path> = Vec::new();
        let mut i: usize = 0;
        while i < self.paths.len()
            invariant
                i <= self.paths@.len(),
                paths@.len() == i,
                forall|k: int| 0 <= k < i ==> (#[trigger] paths@[k])@ == self.paths@[k]@,
            decreases self.paths@.len() - i,
        {
            let p = self.paths[i].duplicate();
            paths.push(p);
            i = i + 1;
        }
        assert(path_views(paths@) =~= path_views(self.paths@));
        Paths { paths }
    }
}

/// Which boolean set operation the engine performs.
#[derive(Clone, Copy, Debug, PartialEq, Eq, Structural)]
pub enum ClipType {
    Union,
    Difference,
    Intersection,
    Xor,
}

/// The winding convention that decides a polygon's interior.
#[derive(Clone, Copy, Debug, PartialEq, Eq, Structural)]
pub enum FillRule {
    EvenOdd,
    NonZero,
    Positive,
    Negative,
}

impl Default for FillRule {
    fn default() -> (r: FillRule)
        ensures
            r == FillRule::NonZero,
    {
        FillRule::NonZero
    }
}

} // verus!
