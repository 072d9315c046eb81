use vstd::prelude::*;

use crate::geometry::{ClipType, FillRule, Paths, Point};
use crate::polytree::{record_views, tree_records, NodeRecord, PolyTree};

verus! {

/// The contours of each registered collection, in registration order.
pub open spec fn paths_views(v: Seq<Paths>) -> Seq<Seq<Seq<Point>>> {
    v.map_values(|p: Paths| p@)
}

/// The single error of this layer: the engine reported that its boolean
/// execution failed. No geometry comes with it.
#[derive(Clone, Copy, Debug, PartialEq, Eq, Structural)]
pub enum ClipperError {
    FailedBooleanOperation,
}

impl ClipperError {
    /// A short description of the error.
    pub fn message(&self) -> (r: &'static str)
        ensures
            r@ == "Failed boolean operation"@,
    {
        proof {
            reveal_strlit("Failed boolean operation");
        }
        "Failed boolean operation"
    }
}

/// The result of a flat boolean operation: closed and open contours.
#[derive(Debug, Clone)]
pub struct BooleanResult {
    pub closed: Paths,
    pub open: Paths,
}

impl BooleanResult {
    pub fn new(closed: Paths, open: Paths) -> (r: BooleanResult)
        ensures
            r.closed@ == closed@,
            r.open@ == open@,
    {
        BooleanResult { closed, open }
    }

    /// Turns what the engine's execution handed back into a result: the two
    /// output collections when it reported success, the failure otherwise.
    pub fn from_engine(success: bool, closed: Paths, open: Paths) -> (r: Result<
        BooleanResult,
        ClipperError,
    >)
        ensures
            success ==> (r matches Ok(b) && b.closed@ == closed@ && b.open@ == open@),
            !success ==> r == Err::<BooleanResult, ClipperError>(
                ClipperError::FailedBooleanOperation,
            ),
    {
        if success {
            Ok(BooleanResult::new(closed, open))
        } else {
            Err(ClipperError::FailedBooleanOperation)
        }
    }
}

/// The result of a tree-producing boolean operation: the containment tree of
/// the closed contours, and the open contours.
#[derive(Debug)]
pub struct BooleanTreeResult {
    pub tree: PolyTree,
    pub open: Paths,
}

impl BooleanTreeResult {
    pub fn new(tree: PolyTree, open: Paths) -> (r: BooleanTreeResult)
        ensures
            r.tree == tree,
            r.open@ == open@,
    {
        BooleanTreeResult { tree, open }
    }

    /// Turns what the engine's tree execution handed back into a result. The
    /// tree arrives as its depth-first, pre-order record listing and is
    /// rebuilt as an owned value. A reported failure, or a listing that is
    /// not the listing of one tree, gives the failure.
    pub fn from_engine(success: bool, records: &Vec<NodeRecord>, open: Paths) -> (r: Result<
        BooleanTreeResult,
        ClipperError,
    >)
        ensures
            r is Ok <==> success && exists|t: PolyTree| tree_records(t) == record_views(records@),
            r matches Ok(b) ==> tree_records(b.tree) == record_views(records@) && b.open@
                == open@,
            r matches Err(e) ==> e == ClipperError::FailedBooleanOperation,
    {
        if !success {
            return Err(ClipperError::FailedBooleanOperation);
        }
        match PolyTree::from_records(records) {
            Some(tree) => Ok(BooleanTreeResult::new(tree, open)),
            None => Err(ClipperError::FailedBooleanOperation),
        }
    }
}

/// A stage of the builder. Each stage admits some numbers of registered
/// subject collections (closed and open together) and clip collections.
pub trait ClipperState {
    spec fn admits(subjects: nat, clips: nat) -> bool;
}

/// Nothing registered yet.
#[derive(Debug)]
pub struct NoSubjects {}

impl ClipperState for NoSubjects {
    open spec fn admits(subjects: nat, clips: nat) -> bool {
        subjects == 0 && clips == 0
    }
}

/// One or more subjects registered, no clip yet.
#[derive(Debug)]
pub struct WithSubjects {}

impl ClipperState for WithSubjects {
    open spec fn admits(subjects: nat, clips: nat) -> bool {
        subjects >= 1 && clips == 0
    }
}

/// One or more subjects and one or more clips registered: a boolean
/// operation may be run.
#[derive(Debug)]
pub struct WithClips {}

impl ClipperState for WithClips {
    open spec fn admits(subjects: nat, clips: nat) -> bool {
        subjects >= 1 && clips >= 1
    }
}

/// What a builder has registered, category by category, in order.
pub struct RegisteredView {
    pub subjects: Seq<Seq<Seq<Point>>>,
    pub open_subjects: Seq<Seq<Seq<Point>>>,
    pub clips: Seq<Seq<Seq<Point>>>,
}

/// Builder for one boolean operation. Its stage `S` decides which calls are
/// available: geometry is registered stage by stage, and a boolean operation
/// can only be asked for once a subject and a clip are registered. Every call
/// consumes the builder. The builder holds no engine resource: the engine
/// handle is acquired and released by the call script of the finished
/// operation, so a builder dropped at any stage leaves nothing behind.
#[derive(Debug)]
pub struct Clipper<S: ClipperState> {
    subjects: Vec<Paths>,
    open_subjects: Vec<Paths>,
    clips: Vec<Paths>,
    state: S,
}

impl<S: ClipperState> View for Clipper<S> {
    type V = RegisteredView;

    closed spec fn view(&self) -> RegisteredView {
        RegisteredView {
            subjects: paths_views(self.subjects@),
            open_subjects: paths_views(self.open_subjects@),
            clips: paths_views(self.clips@),
        }
    }
}

impl<S: ClipperState> Clipper<S> {
    #[verifier::type_invariant]
    spec fn stage_holds(self) -> bool {
        S::admits((self.subjects@.len() + self.open_subjects@.len()) as nat, self.clips@.len())
    }

}

impl Clipper<NoSubjects> {
    /// A builder with nothing registered.
    pub fn new() -> (r: Clipper<NoSubjects>)
        ensures
            r@.subjects.len() == 0,
            r@.open_subjects.len() == 0,
            r@.clips.len() == 0,
    {
        Clipper {
            subjects: Vec::new(),
            open_subjects: Vec::new(),
            clips: Vec::new(),
            state: NoSubjects {},
        }
    }

    /// Registers a collection of closed subject contours.
    pub fn add_subject(self, subject: Paths) -> (r: Clipper<WithSubjects>)
        ensures
            r@.subjects == seq![subject@],
            r@.open_subjects.len() == 0,
            r@.clips.len() == 0,
    {
        let mut subjects: Vec<Paths> = Vec::new();
        subjects.push(subject);
        let r = Clipper {
            subjects,
            open_subjects: Vec::new(),
            clips: Vec::new(),
            state: WithSubjects {},
        };
        assert(r@.subjects =~= seq![subject@]);
        r
    }

    /// Registers a collection of open subject contours.
    pub fn add_open_subject(self, subject: Paths) -> (r: Clipper<WithSubjects>)
        ensures
            r@.subjects.len() == 0,
            r@.open_subjects == seq![subject@],
            r@.clips.len() == 0,
    {
        let mut open_subjects: Vec<Paths> = Vec::new();
        open_subjects.push(subject);
        let r = Clipper {
            subjects: Vec::new(),
            open_subjects,
            clips: Vec::new(),
            state: WithSubjects {},
        };
        assert(r@.open_subjects =~= seq![subject@]);
        r
    }
}

impl Default for Clipper<NoSubjects> {
    fn default() -> (r: Clipper<NoSubjects>)
        ensures
            r@.subjects.len() == 0,
            r@.open_subjects.len() == 0,
            r@.clips.len() == 0,
    {
        Clipper::new()
    }
}

impl Clipper<WithSubjects> {
    /// Registers a further collection of closed subject contours.
    pub fn add_subject(self, subject: Paths) -> (r: Clipper<WithSubjects>)
        ensures
            r@.subjects == self@.subjects.push(subject@),
            r@.open_subjects == self@.open_subjects,
            r@.clips == self@.clips,
    {
        proof {
            use_type_invariant(&self);
        }
        let Clipper { mut subjects, open_subjects, clips, state } = self;
        let ghost before = subjects@;
        subjects.push(subject);
        assert(paths_views(subjects@) =~= paths_views(before).push(subject@));
        Clipper { subjects, open_subjects, clips, state }
    }

    /// Registers a further collection of open subject contours.
    pub fn add_open_subject(self, subject: Paths) -> (r: Clipper<WithSubjects>)
        ensures
            r@.subjects == self@.subjects,
            r@.open_subjects == self@.open_subjects.push(subject@),
            r@.clips == self@.clips,
    {
        proof {
            use_type_invariant(&self);
        }
        let Clipper { subjects, mut open_subjects, clips, state } = self;
        let ghost before = open_subjects@;
        open_subjects.push(subject);
        assert(paths_views(open_subjects@) =~= paths_views(before).push(subject@));
        Clipper { subjects, open_subjects, clips, state }
    }

    /// Registers a collection of clip contours.
    pub fn add_clip(self, clip: Paths) -> (r: Clipper<WithClips>)
        ensures
            r@.subjects == self@.subjects,
            r@.open_subjects == self@.open_subjects,
            r@.clips == seq![clip@],
    {
        proof {
            use_type_invariant(&self);
        }
        let Clipper { subjects, open_subjects, clips: _, state: _ } = self;
        let mut clips: Vec<Paths> = Vec::new();
        clips.push(clip);
        let r = Clipper { subjects, open_subjects, clips, state: WithClips {} };
        assert(r@.clips =~= seq![clip@]);
        r
    }
}

impl Clipper<WithClips> {
    /// Registers a further collection of clip contours.
    pub fn add_clip(self, clip: Paths) -> (r: Clipper<WithClips>)
        ensures
            r@.subjects == self@.subjects,
            r@.open_subjects == self@.open_subjects,
            r@.clips == self@.clips.push(clip@),
    {
        proof {
            use_type_invariant(&self);
        }
        let Clipper { subjects, open_subjects, mut clips, state } = self;
        let ghost before = clips@;
        clips.push(clip);
        assert(paths_views(clips@) =~= paths_views(before).push(clip@));
        Clipper { subjects, open_subjects, clips, state }
    }

    /// The union of subjects and clips, as flat contours.
    pub fn union(self, fill_rule: FillRule) -> (r: BooleanOperation)
        ensures
            r@ == self@.operation(ClipType::Union, fill_rule, false),
            r@.runnable(),
    {
        self.boolean_operation(ClipType::Union, fill_rule, false)
    }

    /// The subjects less the clips, as flat contours.
    pub fn difference(self, fill_rule: FillRule) -> (r: BooleanOperation)
        ensures
            r@ == self@.operation(ClipType::Difference, fill_rule, false),
            r@.runnable(),
    {
        self.boolean_operation(ClipType::Difference, fill_rule, false)
    }

    /// The intersection of subjects and clips, as flat contours.
    pub fn intersect(self, fill_rule: FillRule) -> (r: BooleanOperation)
        ensures
            r@ == self@.operation(ClipType::Intersection, fill_rule, false),
            r@.runnable(),
    {
        self.boolean_operation(ClipType::Intersection, fill_rule, false)
    }

    /// The symmetric difference of subjects and clips, as flat contours.
    pub fn xor(self, fill_rule: FillRule) -> (r: BooleanOperation)
        ensures
            r@ == self@.operation(ClipType::Xor, fill_rule, false),
            r@.runnable(),
    {
        self.boolean_operation(ClipType::Xor, fill_rule, false)
    }

    /// The union of subjects and clips, as a containment tree.
    pub fn union_tree(self, fill_rule: FillRule) -> (r: BooleanOperation)
        ensures
            r@ == self@.operation(ClipType::Union, fill_rule, true),
            r@.runnable(),
    {
        self.boolean_operation(ClipType::Union, fill_rule, true)
    }

    /// The subjects less the clips, as a containment tree.
    pub fn difference_tree(self, fill_rule: FillRule) -> (r: BooleanOperation)
        ensures
            r@ == self@.operation(ClipType::Difference, fill_rule, true),
            r@.runnable(),
    {
        self.boolean_operation(ClipType::Difference, fill_rule, true)
    }

    /// The intersection of subjects and clips, as a containment tree.
    pub fn intersect_tree(self, fill_rule: FillRule) -> (r: BooleanOperation)
        ensures
            r@ == self@.operation(ClipType::Intersection, fill_rule, true),
            r@.runnable(),
    {
        self.boolean_operation(ClipType::Intersection, fill_rule, true)
    }

    /// The symmetric difference of subjects and clips, as a containment tree.
    pub fn xor_tree(self, fill_rule: FillRule) -> (r: BooleanOperation)
        ensures
            r@ == self@.operation(ClipType::Xor, fill_rule, true),
            r@.runnable(),
    {
        self.boolean_operation(ClipType::Xor, fill_rule, true)
    }

    fn boolean_operation(self, clip_type: ClipType, fill_rule: FillRule, tree: bool) -> (r:
        BooleanOperation)
        ensures
            r@ == self@.operation(clip_type, fill_rule, tree),
            r@.runnable(),
    {
        proof {
            use_type_invariant(&self);
        }
        let Clipper { subjects, open_subjects, clips, state: _ } = self;
        BooleanOperation { subjects, open_subjects, clips, clip_type, fill_rule, tree }
    }
}

impl RegisteredView {
    /// The operation that runs `clip_type` under `fill_rule` on this geometry.
    pub open spec fn operation(self, clip_type: ClipType, fill_rule: FillRule, tree: bool) -> OperationView {
        OperationView {
            subjects: self.subjects,
            open_subjects: self.open_subjects,
            clips: self.clips,
            clip_type,
            fill_rule,
            tree,
        }
    }
}

/// A boolean operation whose geometry is complete, ready to be handed to the
/// engine as a call script.
#[derive(Debug)]
pub struct BooleanOperation {
    subjects: Vec<Paths>,
    open_subjects: Vec<Paths>,
    clips: Vec<Paths>,
    clip_type: ClipType,
    fill_rule: FillRule,
    tree: bool,
}

pub struct OperationView {
    pub subjects: Seq<Seq<Seq<Point>>>,
    pub open_subjects: Seq<Seq<Seq<Point>>>,
    pub clips: Seq<Seq<Seq<Point>>>,
    pub clip_type: ClipType,
    pub fill_rule: FillRule,
    pub tree: bool,
}

impl OperationView {
    /// At least one subject collection, closed or open, and one clip
    /// collection are registered.
    pub open spec fn runnable(self) -> bool {
        self.subjects.len() + self.open_subjects.len() >= 1 && self.clips.len() >= 1
    }
}

impl View for BooleanOperation {
    type V = OperationView;

    closed spec fn view(&self) -> OperationView {
        OperationView {
            subjects: paths_views(self.subjects@),
            open_subjects: paths_views(self.open_subjects@),
            clips: paths_views(self.clips@),
            clip_type: self.clip_type,
            fill_rule: self.fill_rule,
            tree: self.tree,
        }
    }
}

impl BooleanOperation {
    /// The boolean set operation to run.
    pub fn clip_type(&self) -> (r: ClipType)
        ensures
            r == self@.clip_type,
    {
        self.clip_type
    }

    /// The fill rule to run it under.
    pub fn fill_rule(&self) -> (r: FillRule)
        ensures
            r == self@.fill_rule,
    {
        self.fill_rule
    }

    /// Whether the closed output is asked for as a containment tree.
    pub fn is_tree(&self) -> (r: bool)
        ensures
            r == self@.tree,
    {
        self.tree
    }

    /// The engine calls that run this operation, in order: acquire a handle,
    /// register the subjects, then the open subjects, then the clips, execute
    /// once, release the handle.
    pub fn into_calls(self) -> (r: Vec<EngineCall>)
        ensures
            call_views(r@) == self@.script(),
    {
        let ghost op = self@;
        let BooleanOperation { subjects, open_subjects, clips, clip_type, fill_rule, tree } = self;
        let mut calls: Vec<EngineCall> = Vec::new();
        calls.push(EngineCall::NewHandle);
        assert(call_views(calls@) =~= seq![CallView::NewHandle]);
        append_registrations(&mut calls, subjects, Category::Subject);
        append_registrations(&mut calls, open_subjects, Category::OpenSubject);
        append_registrations(&mut calls, clips, Category::Clip);
        let ghost before = call_views(calls@);
        if tree {
            calls.push(EngineCall::ExecuteTree(clip_type, fill_rule));
        } else {
            calls.push(EngineCall::Execute(clip_type, fill_rule));
        }
        calls.push(EngineCall::DeleteHandle);
        proof {
            assert(call_views(calls@) =~= before + seq![op.execute_call(), CallView::DeleteHandle]);
            assert(op.script() =~= seq![CallView::NewHandle] + registration_views(
                op.subjects,
                Category::Subject,
            ) + registration_views(op.open_subjects, Category::OpenSubject) + registration_views(
                op.clips,
                Category::Clip,
            ) + seq![op.execute_call(), CallView::DeleteHandle]);
        }
        calls
    }
}

/// One step of the engine protocol that runs a boolean operation.
#[derive(Debug, PartialEq, Eq)]
pub enum EngineCall {
    /// Acquire a fresh computation handle.
    NewHandle,
    /// Register closed subject contours on the handle.
    AddSubject(Paths),
    /// Register open subject contours on the handle.
    AddOpenSubject(Paths),
    /// Register clip contours on the handle.
    AddClip(Paths),
    /// Execute, writing closed and open output collections.
    Execute(ClipType, FillRule),
    /// Execute, writing a containment tree and an open output collection.
    ExecuteTree(ClipType, FillRule),
    /// Release the computation handle.
    DeleteHandle,
}

pub enum CallView {
    NewHandle,
    AddSubject(Seq<Seq<Point>>),
    AddOpenSubject(Seq<Seq<Point>>),
    AddClip(Seq<Seq<Point>>),
    Execute(ClipType, FillRule),
    ExecuteTree(ClipType, FillRule),
    DeleteHandle,
}

pub open spec fn call_view(c: EngineCall) -> CallView {
    match c {
        EngineCall::NewHandle => CallView::NewHandle,
        EngineCall::AddSubject(p) => CallView::AddSubject(p@),
        EngineCall::AddOpenSubject(p) => CallView::AddOpenSubject(p@),
        EngineCall::AddClip(p) => CallView::AddClip(p@),
        EngineCall::Execute(t, f) => CallView::Execute(t, f),
        EngineCall::ExecuteTree(t, f) => CallView::ExecuteTree(t, f),
        EngineCall::DeleteHandle => CallView::DeleteHandle,
    }
}

pub open spec fn call_views(s: Seq<EngineCall>) -> Seq<CallView> {
    s.map_values(|c: EngineCall| call_view(c))
}

/// The kind of geometry a registration call carries.
#[derive(Clone, Copy, Debug, PartialEq, Eq, Structural)]
pub enum Category {
    Subject,
    OpenSubject,
    Clip,
}

pub open spec fn registration_view(kind: Category, p: Seq<Seq<Point>>) -> CallView {
    match kind {
        Category::Subject => CallView::AddSubject(p),
        Category::OpenSubject => CallView::AddOpenSubject(p),
        Category::Clip => CallView::AddClip(p),
    }
}

pub open spec fn registration_views(v: Seq<Seq<Seq<Point>>>, kind: Category) -> Seq<CallView> {
    v.map_values(|p: Seq<Seq<Point>>| registration_view(kind, p))
}

impl OperationView {
    pub open spec fn execute_call(self) -> CallView {
        if self.tree {
            CallView::ExecuteTree(self.clip_type, self.fill_rule)
        } else {
            CallView::Execute(self.clip_type, self.fill_rule)
        }
    }

    /// The engine calls that run this operation.
    pub open spec fn script(self) -> Seq<CallView> {
        seq![CallView::NewHandle] + registration_views(self.subjects, Category::Subject)
            + registration_views(self.open_subjects, Category::OpenSubject) + registration_views(
            self.clips,
            Category::Clip,
        ) + seq![self.execute_call(), CallView::DeleteHandle]
    }
}

/// Running an operation acquires exactly one engine handle, first, and
/// releases it exactly once, last, after the single execution: no call in
/// between acquires or releases one.
pub proof fn lemma_handle_acquired_and_released_once(op: OperationView)
    ensures
        op.script().len() >= 3,
        op.script()[0] == CallView::NewHandle,
        op.script().last() == CallView::DeleteHandle,
        op.script()[op.script().len() - 2] == op.execute_call(),
        forall|i: int|
            0 < i < op.script().len() - 1 ==> #[trigger] op.script()[i] != CallView::NewHandle
                && op.script()[i] != CallView::DeleteHandle,
        forall|i: int|
            0 <= i < op.script().len() - 2 ==> #[trigger] op.script()[i] != op.execute_call(),
{
    let s = op.script();
    let a = registration_views(op.subjects, Category::Subject);
    let b = registration_views(op.open_subjects, Category::OpenSubject);
    let c = registration_views(op.clips, Category::Clip);
    let regs = a + b + c;
    assert(s =~= seq![CallView::NewHandle] + regs + seq![op.execute_call(), CallView::DeleteHandle]);
    assert forall|i: int| 0 <= i < regs.len() implies match #[trigger] regs[i] {
        CallView::AddSubject(_) | CallView::AddOpenSubject(_) | CallView::AddClip(_) => true,
        _ => false,
    } by {
        if i < a.len() {
            assert(regs[i] == a[i]);
        } else if i < a.len() + b.len() {
            assert(regs[i] == b[i - a.len()]);
        } else {
            assert(regs[i] == c[i - a.len() - b.len()]);
        }
    }
    assert forall|i: int| 0 < i < s.len() - 1 implies #[trigger] s[i] != CallView::NewHandle
        && s[i] != CallView::DeleteHandle by {
        if i <= regs.len() {
            assert(s[i] == regs[i - 1]);
        }
    }
    assert forall|i: int| 0 <= i < s.len() - 2 implies #[trigger] s[i] != op.execute_call() by {
        if 0 < i {
            assert(s[i] == regs[i - 1]);
        }
    }
}

/// A runnable operation registers a subject collection, closed or open,
/// and later a clip collection, before it executes.
pub proof fn lemma_subject_and_clip_before_execution(op: OperationView)
    requires
        op.runnable(),
    ensures
        exists|i: int, j: int|
            0 < i < j < op.script().len() - 2 && (#[trigger] op.script()[i] is AddSubject
                || op.script()[i] is AddOpenSubject) && #[trigger] op.script()[j] is AddClip,
{
    let s = op.script();
    let a = registration_views(op.subjects, Category::Subject);
    let b = registration_views(op.open_subjects, Category::OpenSubject);
    let c = registration_views(op.clips, Category::Clip);
    assert(s =~= seq![CallView::NewHandle] + (a + b + c) + seq![op.execute_call(), CallView::DeleteHandle]);
    let j = (1 + a.len() + b.len()) as int;
    assert(s[j] == c[0]);
    if a.len() > 0 {
        assert(s[1] == a[0]);
        assert(s[1] is AddSubject && s[j] is AddClip);
    } else {
        assert(s[1] == b[0]);
        assert(s[1] is AddOpenSubject && s[j] is AddClip);
    }
}

/// Builders that registered the same geometry ask the engine for the same
/// calls when given the same operation.
pub proof fn lemma_same_geometry_same_calls(
    a: RegisteredView,
    b: RegisteredView,
    clip_type: ClipType,
    fill_rule: FillRule,
    tree: bool,
)
    requires
        a == b,
    ensures
        a.operation(clip_type, fill_rule, tree).script() == b.operation(
            clip_type,
            fill_rule,
            tree,
        ).script(),
{
}

fn registration(kind: Category, p: Paths) -> (r: EngineCall)
    ensures
        call_view(r) == registration_view(kind, p@),
{
    match kind {
        Category::Subject => EngineCall::AddSubject(p),
        Category::OpenSubject => EngineCall::AddOpenSubject(p),
        Category::Clip => EngineCall::AddClip(p),
    }
}

fn append_registrations(calls: &mut Vec<EngineCall>, items: Vec<Paths>, kind: Category)
    ensures
        call_views(final(calls)@) == call_views(old(calls)@) + registration_views(
            paths_views(items@),
            kind,
        ),
{
    let ghost orig = items@;
    let ghost start = call_views(calls@);
    let mut items = items;
    let n = items.len();
    let mut k: usize = 0;
    while k < n
        invariant
            n == orig.len(),
            k <= n,
            items@ == orig.subrange(k as int, n as int),
            call_views(calls@) == start + registration_views(
                paths_views(orig.subrange(0, k as int)),
                kind,
            ),
        decreases n - k,
    {
        let p = items.remove(0);
        let ghost before = call_views(calls@);
        calls.push(registration(kind, p));
        proof {
            assert(items@ =~= orig.subrange(k + 1, n as int));
            assert(call_views(calls@) =~= before.push(registration_view(kind, orig[k as int]@)));
            assert(registration_views(paths_views(orig.subrange(0, k + 1)), kind) =~= registration_views(
                paths_views(orig.subrange(0, k as int)),
                kind,
            ).push(registration_view(kind, orig[k as int]@)));
        }
        k = k + 1;
    }
    assert(orig.subrange(0, n as int) =~= orig);
}

} // verus!
