use clipper2::{BooleanTreeResult, ClipperError, NodeRecord, Path, Paths, Point, PolyTree};

fn path(points: &[(i64, i64)]) -> Path {
    Path::new(points.iter().map(|&(x, y)| Point::new(x, y)).collect())
}

fn coords(p: &Paths) -> Vec<Vec<(i64, i64)>> {
    p.paths()
        .iter()
        .map(|c| c.points().iter().map(|q| (q.x, q.y)).collect())
        .collect()
}

fn record(is_hole: bool, points: &[(i64, i64)], child_count: usize) -> NodeRecord {
    NodeRecord { is_hole, polygon: path(points), child_count }
}

const OUTER: &[(i64, i64)] = &[(0, 0), (1000, 0), (1000, 1000), (0, 1000)];
const HOLE: &[(i64, i64)] = &[(200, 200), (200, 800), (800, 800), (800, 200)];
const ISLAND: &[(i64, i64)] = &[(300, 300), (700, 300), (700, 700)];
const SECOND: &[(i64, i64)] = &[(2000, 0), (3000, 0), (3000, 1000)];

fn square_with_hole() -> Vec<NodeRecord> {
    vec![record(false, &[], 1), record(false, OUTER, 1), record(true, HOLE, 0)]
}

#[test]
fn square_with_one_hole() {
    let result = BooleanTreeResult::from_engine(true, &square_with_hole(), Paths::empty()).unwrap();
    let root = &result.tree;
    assert_eq!(root.child_count(), 1);
    let top = root.get_child(0).unwrap();
    assert!(!top.is_hole());
    assert_eq!(top.child_count(), 1);
    assert!(top.get_child(0).unwrap().is_hole());
    assert_eq!(coords(&top.to_paths()), vec![OUTER.to_vec(), HOLE.to_vec()]);
    assert_eq!(coords(&top.get_hole_paths()), vec![HOLE.to_vec()]);
    assert_eq!(coords(&root.get_hole_paths()), vec![HOLE.to_vec()]);
    assert_eq!(result.open.len(), 0);
}

#[test]
fn flatten_is_pre_order() {
    let records = vec![
        record(false, &[], 2),
        record(false, OUTER, 1),
        record(true, HOLE, 1),
        record(false, ISLAND, 0),
        record(false, SECOND, 0),
    ];
    let tree = PolyTree::from_records(&records).unwrap();
    assert_eq!(
        coords(&tree.to_paths()),
        vec![vec![], OUTER.to_vec(), HOLE.to_vec(), ISLAND.to_vec(), SECOND.to_vec()]
    );
    assert_eq!(coords(&tree.get_hole_paths()), vec![HOLE.to_vec()]);
    assert_eq!(tree.children().len(), 2);
    assert_eq!(tree.polygon().len(), 0);
    assert!(tree.get_child(2).is_none());
}

#[test]
fn malformed_listing_is_rejected() {
    assert!(PolyTree::from_records(&Vec::new()).is_none());
    let short = vec![record(false, &[], 2), record(false, OUTER, 0)];
    assert!(PolyTree::from_records(&short).is_none());
    let trailing = vec![record(false, &[], 0), record(false, OUTER, 0)];
    assert!(PolyTree::from_records(&trailing).is_none());
    let r = BooleanTreeResult::from_engine(true, &short, Paths::empty());
    assert_eq!(r.unwrap_err(), ClipperError::FailedBooleanOperation);
}

#[test]
fn children_can_be_changed_in_place() {
    let mut tree = PolyTree::from_records(&square_with_hole()).unwrap();
    {
        let top = tree.get_child_mut(0).unwrap();
        top.children_mut().push(PolyTree::new(true, path(ISLAND), Vec::new()));
    }
    assert!(tree.get_child_mut(5).is_none());
    let top = tree.get_child(0).unwrap();
    assert_eq!(top.child_count(), 2);
    assert_eq!(coords(&top.get_hole_paths()), vec![HOLE.to_vec(), ISLAND.to_vec()]);
}

#[test]
fn copies_are_equal_and_independent() {
    let p = path(OUTER);
    let q = p.duplicate();
    assert_eq!(p, q);
    let ps = Paths::new(vec![path(OUTER), path(HOLE)]);
    let qs = ps.duplicate();
    assert_eq!(ps, qs);
    assert_eq!(qs.into_paths()[1].clone().into_points().len(), 4);
}

#[test]
fn same_listing_gives_same_contours() {
    let a = BooleanTreeResult::from_engine(true, &square_with_hole(), Paths::empty()).unwrap();
    let b = BooleanTreeResult::from_engine(true, &square_with_hole(), Paths::empty()).unwrap();
    assert_eq!(a.tree.to_paths(), b.tree.to_paths());
    assert_eq!(a.tree.get_hole_paths(), b.tree.get_hole_paths());
}

#[test]
fn tree_result_new_keeps_parts() {
    let tree = PolyTree::new(false, path(OUTER), vec![PolyTree::new(true, path(HOLE), Vec::new())]);
    let r = BooleanTreeResult::new(tree, Paths::new(vec![path(SECOND)]));
    assert_eq!(r.tree.child_count(), 1);
    assert!(!r.tree.is_hole());
    assert_eq!(coords(&r.open), vec![SECOND.to_vec()]);
}

#[test]
fn shoelace_area_of_contours() {
    let ccw = path(&[(0, 0), (10, 0), (10, 10), (0, 10)]);
    assert_eq!(ccw.twice_signed_area(), Some(200));
    let cw = path(&[(0, 0), (0, 10), (10, 10), (10, 0)]);
    assert_eq!(cw.twice_signed_area(), Some(-200));
    assert_eq!(path(&[(3, 4), (7, 9)]).twice_signed_area(), Some(0));
    assert_eq!(path(&[]).twice_signed_area(), Some(0));
    let outer = PolyTree::from_records(&square_with_hole()).unwrap();
    let top = outer.get_child(0).unwrap();
    assert_eq!(top.polygon().twice_signed_area(), Some(2_000_000));
    assert_eq!(top.get_child(0).unwrap().polygon().twice_signed_area(), Some(-720_000));
}

#[test]
fn shoelace_area_overflow_is_reported() {
    let huge = path(&[(i64::MIN, i64::MAX), (i64::MIN, i64::MIN), (i64::MAX, i64::MIN)]);
    assert_eq!(huge.twice_signed_area(), None);
}
