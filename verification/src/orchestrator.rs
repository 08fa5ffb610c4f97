//! The scaffold orchestrator: resolve the sources, guard the destination,
//! materialize the base template, then each overlay.
//!
//! The orchestrator is a state machine.  Each step takes the outcome of the
//! action that was asked for last and answers with the next action.  The
//! caller performs the actions; the orchestrator never touches a file.

use vstd::prelude::*;
use vstd::string::StringExecFns;
use crate::path::{PathModel, TreePath};
use crate::error::{ErrorModel, ScaffoldError};
use crate::guard::check_destination;
use crate::composer::{
    overlays_of, project_root, sources_of, task_models, tasks_for, MaterializationTask,
    RequestModel, ResolvedSources, ResultModel, ScaffoldRequest, ScaffoldResult, SourcesModel,
    TaskModel,
};

verus! {

/// Where a scaffold stands.
#[derive(PartialEq, Eq, Structural, Clone, Copy, Debug)]
pub enum Phase {
    Idle,
    Resolving,
    Guarding,
    CopyingBase,
    CopyingOverlays,
    Done,
    Failed,
}

/// What the caller reports to the orchestrator.
#[derive(Debug)]
pub enum Event {
    /// The scaffold is to begin.
    Start,
    /// Which of the source directories that were asked about exist, as
    /// directories.  An overlay that was not asked about is reported as
    /// anything.
    Resolved { base: bool, ci: bool, infra: bool },
    /// Whether anything is found at the destination path.
    Destination { exists: bool },
    /// The tree that was asked for has been copied.
    Materialized,
    /// The action that was asked for has failed.
    Failure(ScaffoldError),
}

/// The mathematical value of an [`Event`].
pub enum EventModel {
    Start,
    Resolved { base: bool, ci: bool, infra: bool },
    Destination { exists: bool },
    Materialized,
    Failure(ErrorModel),
}

impl View for Event {
    type V = EventModel;

    open spec fn view(&self) -> EventModel {
        match self {
            Event::Start => EventModel::Start,
            Event::Resolved { base, ci, infra } => EventModel::Resolved {
                base: *base,
                ci: *ci,
                infra: *infra,
            },
            Event::Destination { exists } => EventModel::Destination { exists: *exists },
            Event::Materialized => EventModel::Materialized,
            Event::Failure(e) => EventModel::Failure(e@),
        }
    }
}

/// What the orchestrator asks of the caller.
#[derive(Debug)]
pub enum Action {
    /// Nothing yet: the scaffold has not begun.
    Standby,
    /// Find out which of these directories exist, and report `Resolved`.
    Resolve(ResolvedSources),
    /// Find out whether anything is at this path, and report `Destination`.
    CheckDestination(TreePath),
    /// Copy this tree, and report `Materialized` or `Failure`.
    Materialize(MaterializationTask),
    /// The scaffold is complete.
    Finish(ScaffoldResult),
    /// The scaffold is abandoned.
    Fail(ScaffoldError),
}

/// The mathematical value of an [`Action`].
pub enum ActionModel {
    Standby,
    Resolve(SourcesModel),
    CheckDestination(PathModel),
    Materialize(TaskModel),
    Finish(ResultModel),
    Fail(ErrorModel),
}

impl View for Action {
    type V = ActionModel;

    open spec fn view(&self) -> ActionModel {
        match self {
            Action::Standby => ActionModel::Standby,
            Action::Resolve(s) => ActionModel::Resolve(s@),
            Action::CheckDestination(p) => ActionModel::CheckDestination(p@),
            Action::Materialize(t) => ActionModel::Materialize(t@),
            Action::Finish(r) => ActionModel::Finish(r@),
            Action::Fail(e) => ActionModel::Fail(e@),
        }
    }
}

/// The mathematical value of a [`Scaffolder`].
pub struct ScaffolderModel {
    pub phase: Phase,
    pub request: RequestModel,
    /// The trees that are not copied yet; the first is the one that the
    /// caller has been asked to copy.
    pub pending: Seq<TaskModel>,
    pub error: Option<ErrorModel>,
}

/// The cause that is reported when the caller answers with an event that
/// does not belong to the action it was asked for.
pub open spec fn unexpected_event() -> Seq<char> {
    "unexpected event"@
}

/// The orchestrator before the scaffold of `request` has begun.
pub open spec fn initial(request: RequestModel) -> ScaffolderModel {
    ScaffolderModel {
        phase: Phase::Idle,
        request,
        pending: Seq::<TaskModel>::empty(),
        error: None,
    }
}

/// The scaffold is abandoned with `e`.
pub open spec fn failed(s: ScaffolderModel, e: ErrorModel) -> (ScaffolderModel, ActionModel) {
    (
        ScaffolderModel {
            phase: Phase::Failed,
            pending: Seq::<TaskModel>::empty(),
            error: Some(e),
            ..s
        },
        ActionModel::Fail(e),
    )
}

/// What a scaffold of `request` reports once it is complete.
pub open spec fn outcome(request: RequestModel) -> ResultModel {
    ResultModel {
        project_root: project_root(request),
        applied_overlays: overlays_of(sources_of(request)),
    }
}

/// The error that a missing source gives: without the base directory the
/// template is unknown; an overlay that is in effect and missing is a
/// missing source.
pub open spec fn resolution_error(want: SourcesModel, base: bool, ci: bool, infra: bool) -> Option<
    ErrorModel,
> {
    if !base {
        Some(ErrorModel::TemplateNotFound)
    } else if (want.ci.is_some() && !ci) || (want.infra.is_some() && !infra) {
        Some(ErrorModel::SourceNotFound)
    } else {
        None
    }
}

/// The trees that remain once the first of `pending` is copied.
pub open spec fn rest_of(pending: Seq<TaskModel>) -> Seq<TaskModel> {
    if pending.len() > 0 {
        pending.drop_first()
    } else {
        pending
    }
}

/// One step of the orchestrator: the state it moves to and the action it
/// asks for, given the state it is in and the event that is reported.
pub open spec fn transition(s: ScaffolderModel, e: EventModel) -> (ScaffolderModel, ActionModel) {
    match s.phase {
        Phase::Idle => match e {
            EventModel::Start => (
                ScaffolderModel { phase: Phase::Resolving, ..s },
                ActionModel::Resolve(sources_of(s.request)),
            ),
            _ => (s, ActionModel::Standby),
        },
        Phase::Resolving => match e {
            EventModel::Resolved { base, ci, infra } => match resolution_error(
                sources_of(s.request),
                base,
                ci,
                infra,
            ) {
                Some(err) => failed(s, err),
                None => (
                    ScaffolderModel { phase: Phase::Guarding, ..s },
                    ActionModel::CheckDestination(project_root(s.request)),
                ),
            },
            EventModel::Failure(err) => failed(s, err),
            _ => failed(s, ErrorModel::IoFailure(unexpected_event())),
        },
        Phase::Guarding => match e {
            EventModel::Destination { exists } => if exists {
                failed(s, ErrorModel::AlreadyExists)
            } else {
                let tasks = tasks_for(project_root(s.request), sources_of(s.request));
                (
                    ScaffolderModel { phase: Phase::CopyingBase, pending: tasks, ..s },
                    ActionModel::Materialize(tasks[0]),
                )
            },
            EventModel::Failure(err) => failed(s, err),
            _ => failed(s, ErrorModel::IoFailure(unexpected_event())),
        },
        Phase::CopyingBase | Phase::CopyingOverlays => match e {
            EventModel::Materialized => {
                let rest = rest_of(s.pending);
                if rest.len() == 0 {
                    (
                        ScaffolderModel { phase: Phase::Done, pending: rest, ..s },
                        ActionModel::Finish(outcome(s.request)),
                    )
                } else {
                    (
                        ScaffolderModel { phase: Phase::CopyingOverlays, pending: rest, ..s },
                        ActionModel::Materialize(rest[0]),
                    )
                }
            },
            EventModel::Failure(err) => failed(s, err),
            _ => failed(s, ErrorModel::IoFailure(unexpected_event())),
        },
        Phase::Done => (s, ActionModel::Finish(outcome(s.request))),
        Phase::Failed => (
            s,
            ActionModel::Fail(
                match s.error {
                    Some(err) => err,
                    None => ErrorModel::IoFailure(unexpected_event()),
                },
            ),
        ),
    }
}

/// The orchestrator of one scaffold.
#[derive(Debug)]
pub struct Scaffolder {
    phase: Phase,
    request: ScaffoldRequest,
    tasks: Vec<MaterializationTask>,
    next: usize,
    error: Option<ScaffoldError>,
}

impl View for Scaffolder {
    type V = ScaffolderModel;

    closed spec fn view(&self) -> ScaffolderModel {
        ScaffolderModel {
            phase: self.phase,
            request: self.request@,
            pending: if self.next <= self.tasks@.len() {
                task_models(self.tasks@).skip(self.next as int)
            } else {
                Seq::<TaskModel>::empty()
            },
            error: match self.error {
                Some(e) => Some(e@),
                None => None,
            },
        }
    }
}

impl Scaffolder {
    /// The orchestrator of the scaffold of `request`, not yet begun.
    pub fn new(request: ScaffoldRequest) -> (s: Scaffolder)
        ensures
            s@ == initial(request@),
    {
        let s = Scaffolder { phase: Phase::Idle, request, tasks: Vec::new(), next: 0, error: None };
        assert(s@.pending =~= Seq::<TaskModel>::empty());
        s
    }

    /// Where the scaffold stands.
    pub fn phase(&self) -> (p: Phase)
        ensures
            p == self@.phase,
    {
        self.phase
    }

    /// What the scaffold reports once it is complete.
    fn result(&self) -> (r: ScaffoldResult)
        ensures
            r@ == outcome(self@.request),
    {
        ScaffoldResult {
            project_root: self.request.project_root(),
            applied_overlays: self.request.sources().overlays(),
        }
    }

    /// Abandons the scaffold with `e`.
    fn fail(&mut self, e: ScaffoldError) -> (action: Action)
        ensures
            final(self)@ == failed(old(self)@, e@).0,
            action@ == failed(old(self)@, e@).1,
    {
        let action = Action::Fail(e.duplicate());
        self.phase = Phase::Failed;
        self.tasks = Vec::new();
        self.next = 0;
        self.error = Some(e);
        assert(self@.pending =~= Seq::<TaskModel>::empty());
        action
    }

    /// Abandons the scaffold because `event` answers no action that was
    /// asked for.
    fn reject(&mut self) -> (action: Action)
        ensures
            final(self)@ == failed(old(self)@, ErrorModel::IoFailure(unexpected_event())).0,
            action@ == failed(old(self)@, ErrorModel::IoFailure(unexpected_event())).1,
    {
        self.fail(ScaffoldError::IoFailure(String::from_str("unexpected event")))
    }

    /// Takes the outcome of the action that was asked for last, and answers
    /// with the next action.
    pub fn step(&mut self, event: Event) -> (action: Action)
        ensures
            final(self)@ == transition(old(self)@, event@).0,
            action@ == transition(old(self)@, event@).1,
    {
        match self.phase {
            Phase::Idle => match event {
                Event::Start => {
                    self.phase = Phase::Resolving;
                    Action::Resolve(self.request.sources())
                },
                _ => Action::Standby,
            },
            Phase::Resolving => match event {
                Event::Resolved { base, ci, infra } => {
                    let want = self.request.sources();
                    if !base {
                        self.fail(ScaffoldError::TemplateNotFound)
                    } else if (want.ci_overlay_path.is_some() && !ci) || (
                    want.infra_overlay_path.is_some() && !infra) {
                        self.fail(ScaffoldError::SourceNotFound)
                    } else {
                        self.phase = Phase::Guarding;
                        Action::CheckDestination(self.request.project_root())
                    }
                },
                Event::Failure(err) => self.fail(err),
                _ => self.reject(),
            },
            Phase::Guarding => match event {
                Event::Destination { exists } => match check_destination(exists) {
                    Err(err) => self.fail(err),
                    Ok(()) => {
                        let root = self.request.project_root();
                        let tasks = self.request.sources().tasks(&root);
                        assert(task_models(tasks@).len() >= 1);
                        let first = tasks[0].duplicate();
                        self.phase = Phase::CopyingBase;
                        self.tasks = tasks;
                        self.next = 0;
                        assert(self@.pending =~= tasks_for(
                            project_root(self@.request),
                            sources_of(self@.request),
                        ));
                        Action::Materialize(first)
                    },
                },
                Event::Failure(err) => self.fail(err),
                _ => self.reject(),
            },
            Phase::CopyingBase | Phase::CopyingOverlays => match event {
                Event::Materialized => {
                    let ghost before = self@.pending;
                    if self.next < self.tasks.len() {
                        self.next = self.next + 1;
                    }
                    assert(self@.pending =~= rest_of(before));
                    if self.next < self.tasks.len() {
                        self.phase = Phase::CopyingOverlays;
                        Action::Materialize(self.tasks[self.next].duplicate())
                    } else {
                        self.phase = Phase::Done;
                        Action::Finish(self.result())
                    }
                },
                Event::Failure(err) => self.fail(err),
                _ => self.reject(),
            },
            Phase::Done => Action::Finish(self.result()),
            Phase::Failed => match &self.error {
                Some(err) => Action::Fail(err.duplicate()),
                None => Action::Fail(ScaffoldError::IoFailure(String::from_str("unexpected event"))),
            },
        }
    }
}

} // verus!
