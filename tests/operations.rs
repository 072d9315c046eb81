use clipper2::{
    union, BooleanResult, BooleanTreeResult, Clipper, ClipperError, ClipType, EngineCall,
    FillRule, NodeRecord, Path, Paths, Point, PolyTree,
};

fn path(points: &[(i64, i64)]) -> Path {
    Path::new(points.iter().map(|&(x, y)| Point::new(x, y)).collect())
}

fn paths(contours: &[&[(i64, i64)]]) -> Paths {
    Paths::new(contours.iter().map(|c| path(c)).collect())
}

fn coords(p: &Paths) -> Vec<Vec<(i64, i64)>> {
    p.paths()
        .iter()
        .map(|c| c.points().iter().map(|q| (q.x, q.y)).collect())
        .collect()
}

const SUBJECT: &[(i64, i64)] = &[(20, 20), (600, 20), (600, 600), (20, 600)];
const CLIP: &[(i64, i64)] = &[(500, 500), (800, 500), (800, 800), (500, 800)];
const UNION_OUTLINE: &[(i64, i64)] = &[
    (600, 500),
    (800, 500),
    (800, 800),
    (500, 800),
    (500, 600),
    (20, 600),
    (20, 20),
    (600, 20),
];

fn count_handles(calls: &[EngineCall]) -> (usize, usize) {
    let acquired = calls.iter().filter(|c| matches!(c, EngineCall::NewHandle)).count();
    let released = calls.iter().filter(|c| matches!(c, EngineCall::DeleteHandle)).count();
    (acquired, released)
}

#[test]
fn test_union() {
    let op = union(paths(&[SUBJECT]), paths(&[CLIP]), FillRule::default());
    assert_eq!(op.clip_type(), ClipType::Union);
    assert_eq!(op.fill_rule(), FillRule::NonZero);
    assert!(!op.is_tree());
    let calls = op.into_calls();
    assert_eq!(
        calls,
        vec![
            EngineCall::NewHandle,
            EngineCall::AddSubject(paths(&[SUBJECT])),
            EngineCall::AddClip(paths(&[CLIP])),
            EngineCall::Execute(ClipType::Union, FillRule::NonZero),
            EngineCall::DeleteHandle,
        ]
    );

    let result =
        BooleanResult::from_engine(true, paths(&[UNION_OUTLINE]), Paths::empty()).unwrap();
    assert_eq!(coords(&result.closed), vec![UNION_OUTLINE.to_vec()]);
    assert_eq!(result.closed.paths()[0].len(), 8);
    assert_eq!(result.open.len(), 0);
}

#[test]
fn registrations_run_by_category_in_order() {
    let a = paths(&[&[(0, 0), (10, 0), (10, 10)]]);
    let b = paths(&[&[(1, 1), (2, 2)]]);
    let c = paths(&[&[(3, 3), (4, 4), (5, 3)]]);
    let d = paths(&[&[(5, 5), (6, 6), (7, 5)]]);
    let e = paths(&[&[(8, 8), (9, 9), (9, 8)]]);
    let calls = Clipper::new()
        .add_open_subject(b.clone())
        .add_subject(a.clone())
        .add_subject(c.clone())
        .add_clip(d.clone())
        .add_clip(e.clone())
        .difference(FillRule::EvenOdd)
        .into_calls();
    assert_eq!(
        calls,
        vec![
            EngineCall::NewHandle,
            EngineCall::AddSubject(a),
            EngineCall::AddSubject(c),
            EngineCall::AddOpenSubject(b),
            EngineCall::AddClip(d),
            EngineCall::AddClip(e),
            EngineCall::Execute(ClipType::Difference, FillRule::EvenOdd),
            EngineCall::DeleteHandle,
        ]
    );
}

#[test]
fn each_operation_executes_its_clip_type() {
    let build = || Clipper::new().add_subject(paths(&[SUBJECT])).add_clip(paths(&[CLIP]));
    let cases = vec![
        (build().union(FillRule::NonZero), EngineCall::Execute(ClipType::Union, FillRule::NonZero)),
        (build().difference(FillRule::NonZero), EngineCall::Execute(ClipType::Difference, FillRule::NonZero)),
        (build().intersect(FillRule::Positive), EngineCall::Execute(ClipType::Intersection, FillRule::Positive)),
        (build().xor(FillRule::Negative), EngineCall::Execute(ClipType::Xor, FillRule::Negative)),
        (build().union_tree(FillRule::NonZero), EngineCall::ExecuteTree(ClipType::Union, FillRule::NonZero)),
        (build().difference_tree(FillRule::EvenOdd), EngineCall::ExecuteTree(ClipType::Difference, FillRule::EvenOdd)),
        (build().intersect_tree(FillRule::NonZero), EngineCall::ExecuteTree(ClipType::Intersection, FillRule::NonZero)),
        (build().xor_tree(FillRule::NonZero), EngineCall::ExecuteTree(ClipType::Xor, FillRule::NonZero)),
    ];
    for (op, expected) in cases {
        let tree = op.is_tree();
        let calls = op.into_calls();
        assert_eq!(calls.len(), 5);
        assert_eq!(calls[3], expected);
        assert_eq!(tree, matches!(expected, EngineCall::ExecuteTree(_, _)));
    }
}

#[test]
fn handle_acquired_and_released_once() {
    let ops = vec![
        Clipper::new().add_subject(paths(&[SUBJECT])).add_clip(paths(&[CLIP])).union(FillRule::NonZero),
        Clipper::new()
            .add_open_subject(paths(&[SUBJECT]))
            .add_clip(paths(&[CLIP]))
            .add_clip(paths(&[SUBJECT]))
            .xor_tree(FillRule::EvenOdd),
    ];
    for op in ops {
        let calls = op.into_calls();
        assert_eq!(count_handles(&calls), (1, 1));
        assert_eq!(calls[0], EngineCall::NewHandle);
        assert_eq!(calls[calls.len() - 1], EngineCall::DeleteHandle);
    }
}

#[test]
fn discarded_builders_hold_no_handle() {
    let empty = Clipper::new();
    drop(empty);
    let with_subjects = Clipper::new().add_subject(paths(&[SUBJECT]));
    drop(with_subjects);
    let with_clips = Clipper::new().add_subject(paths(&[SUBJECT])).add_clip(paths(&[CLIP]));
    drop(with_clips);
    let calls = Clipper::new()
        .add_subject(paths(&[SUBJECT]))
        .add_clip(paths(&[CLIP]))
        .intersect(FillRule::NonZero)
        .into_calls();
    assert_eq!(count_handles(&calls), (1, 1));
}

#[test]
fn same_geometry_gives_same_calls_and_results() {
    let first = union(paths(&[SUBJECT]), paths(&[CLIP]), FillRule::NonZero).into_calls();
    let second = union(paths(&[SUBJECT]), paths(&[CLIP]), FillRule::NonZero).into_calls();
    assert_eq!(first, second);
    let a = BooleanResult::from_engine(true, paths(&[UNION_OUTLINE]), Paths::empty()).unwrap();
    let b = BooleanResult::from_engine(true, paths(&[UNION_OUTLINE]), Paths::empty()).unwrap();
    assert_eq!(a.closed, b.closed);
    assert_eq!(a.open, b.open);
}

#[test]
fn engine_failure_gives_error() {
    let r = BooleanResult::from_engine(false, paths(&[SUBJECT]), paths(&[CLIP]));
    assert_eq!(r.unwrap_err(), ClipperError::FailedBooleanOperation);
    let t = BooleanTreeResult::from_engine(false, &Vec::new(), Paths::empty());
    assert_eq!(t.unwrap_err(), ClipperError::FailedBooleanOperation);
    assert_eq!(ClipperError::FailedBooleanOperation.message(), "Failed boolean operation");
}

#[test]
fn boolean_result_new_keeps_both_collections() {
    let r = BooleanResult::new(paths(&[SUBJECT]), paths(&[CLIP]));
    assert_eq!(coords(&r.closed), vec![SUBJECT.to_vec()]);
    assert_eq!(coords(&r.open), vec![CLIP.to_vec()]);
}
