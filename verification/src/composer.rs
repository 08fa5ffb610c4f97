//! The overlay composer: what a request asks for, where its sources are
//! looked for, and the ordered list of trees to materialize.

use vstd::prelude::*;
use vstd::string::StringExecFns;
use crate::path::{PathModel, TreePath};

verus! {

/// An overlay that can be layered on top of a base template.
#[derive(PartialEq, Eq, Structural, Clone, Copy, Debug)]
pub enum Overlay {
    /// Continuous-integration configuration.
    Ci,
    /// Infrastructure-as-code configuration.
    Infra,
}

/// The overlays in effect for a request, after the implication rule.
#[derive(PartialEq, Eq, Structural, Clone, Copy, Debug)]
pub struct EffectiveOverlays {
    pub ci: bool,
    pub infra: bool,
}

/// The implication rule: the infrastructure overlay is taken as asked, and
/// the CI overlay is taken when either was asked for.
pub open spec fn effective(with_ci: bool, with_infra: bool) -> EffectiveOverlays {
    EffectiveOverlays { ci: with_ci || with_infra, infra: with_infra }
}

/// Applies the implication rule to the literal flags of a request.
pub fn compose(with_ci: bool, with_infra: bool) -> (e: EffectiveOverlays)
    ensures
        e == effective(with_ci, with_infra),
        e.infra == with_infra,
        e.ci == (with_ci || with_infra),
{
    EffectiveOverlays { ci: with_ci || with_infra, infra: with_infra }
}

/// The overlays in effect, CI first.
pub open spec fn overlay_list(e: EffectiveOverlays) -> Seq<Overlay> {
    (if e.ci {
        seq![Overlay::Ci]
    } else {
        Seq::<Overlay>::empty()
    }) + (if e.infra {
        seq![Overlay::Infra]
    } else {
        Seq::<Overlay>::empty()
    })
}

/// What the caller asks for.
#[derive(Debug)]
pub struct ScaffoldRequest {
    pub project_name: String,
    pub template_id: String,
    pub with_ci: bool,
    pub with_infra: bool,
}

/// The mathematical value of a [`ScaffoldRequest`].
pub struct RequestModel {
    pub project_name: Seq<char>,
    pub template_id: Seq<char>,
    pub with_ci: bool,
    pub with_infra: bool,
}

impl View for ScaffoldRequest {
    type V = RequestModel;

    open spec fn view(&self) -> RequestModel {
        RequestModel {
            project_name: self.project_name@,
            template_id: self.template_id@,
            with_ci: self.with_ci,
            with_infra: self.with_infra,
        }
    }
}

/// The source directories of a request: the base template, and each overlay
/// that is in effect.
#[derive(Debug)]
pub struct ResolvedSources {
    pub base_path: TreePath,
    pub ci_overlay_path: Option<TreePath>,
    pub infra_overlay_path: Option<TreePath>,
}

/// The mathematical value of a [`ResolvedSources`].
pub struct SourcesModel {
    pub base: PathModel,
    pub ci: Option<PathModel>,
    pub infra: Option<PathModel>,
}

/// The mathematical value of an optional path.
pub open spec fn optional_path(p: Option<TreePath>) -> Option<PathModel> {
    match p {
        Some(p) => Some(p@),
        None => None,
    }
}

impl View for ResolvedSources {
    type V = SourcesModel;

    open spec fn view(&self) -> SourcesModel {
        SourcesModel {
            base: self.base_path@,
            ci: optional_path(self.ci_overlay_path),
            infra: optional_path(self.infra_overlay_path),
        }
    }
}

/// One tree to copy: from `source_dir` into `dest_dir`.
#[derive(Debug)]
pub struct MaterializationTask {
    pub source_dir: TreePath,
    pub dest_dir: TreePath,
}

/// The mathematical value of a [`MaterializationTask`].
pub struct TaskModel {
    pub source: PathModel,
    pub dest: PathModel,
}

impl View for MaterializationTask {
    type V = TaskModel;

    open spec fn view(&self) -> TaskModel {
        TaskModel { source: self.source_dir@, dest: self.dest_dir@ }
    }
}

/// The mathematical value of a list of tasks.
pub open spec fn task_models(tasks: Seq<MaterializationTask>) -> Seq<TaskModel> {
    Seq::new(tasks.len(), |i: int| tasks[i]@)
}

/// What a scaffold has made.
#[derive(Debug)]
pub struct ScaffoldResult {
    pub project_root: TreePath,
    pub applied_overlays: Vec<Overlay>,
}

/// The mathematical value of a [`ScaffoldResult`].
pub struct ResultModel {
    pub project_root: PathModel,
    pub applied_overlays: Seq<Overlay>,
}

impl View for ScaffoldResult {
    type V = ResultModel;

    open spec fn view(&self) -> ResultModel {
        ResultModel { project_root: self.project_root@, applied_overlays: self.applied_overlays@ }
    }
}

/// The name of the directory below which base templates live.
pub open spec fn templates_root() -> Seq<char> {
    "templates"@
}

/// The name of the directory below which the overlays live.
pub open spec fn extras_root() -> Seq<char> {
    "extras"@
}

/// The name of the CI overlay, and of the project subdirectory it fills.
pub open spec fn ci_name() -> Seq<char> {
    ".github"@
}

/// The name of the infrastructure overlay, and of the project subdirectory
/// it fills.
pub open spec fn infra_name() -> Seq<char> {
    "terraform"@
}

/// The directory that a scaffold creates.
pub open spec fn project_root(r: RequestModel) -> PathModel {
    seq![r.project_name]
}

/// The base directory of a template.
pub open spec fn template_dir(template_id: Seq<char>) -> PathModel {
    seq![templates_root(), template_id]
}

/// The one directory that holds the CI overlay.
pub open spec fn ci_source() -> PathModel {
    seq![extras_root(), ci_name()]
}

/// The one directory that holds the infrastructure overlay.
pub open spec fn infra_source() -> PathModel {
    seq![extras_root(), infra_name()]
}

/// Where the sources of a request are looked for.
pub open spec fn sources_of(r: RequestModel) -> SourcesModel {
    let e = effective(r.with_ci, r.with_infra);
    SourcesModel {
        base: template_dir(r.template_id),
        ci: if e.ci {
            Some(ci_source())
        } else {
            None
        },
        infra: if e.infra {
            Some(infra_source())
        } else {
            None
        },
    }
}

/// The trees to materialize, in order: the base template into the project
/// root, then each overlay that is present into its own subdirectory.
pub open spec fn tasks_for(root: PathModel, s: SourcesModel) -> Seq<TaskModel> {
    seq![TaskModel { source: s.base, dest: root }] + (match s.ci {
        Some(p) => seq![TaskModel { source: p, dest: root.push(ci_name()) }],
        None => Seq::<TaskModel>::empty(),
    }) + (match s.infra {
        Some(p) => seq![TaskModel { source: p, dest: root.push(infra_name()) }],
        None => Seq::<TaskModel>::empty(),
    })
}

/// The overlays that a set of sources brings in, CI first.
pub open spec fn overlays_of(s: SourcesModel) -> Seq<Overlay> {
    overlay_list(EffectiveOverlays { ci: s.ci.is_some(), infra: s.infra.is_some() })
}

impl ScaffoldRequest {
    /// A request for the project `project_name` from the template
    /// `template_id`, with the overlays as literally asked for.
    pub fn new(project_name: &str, template_id: &str, with_ci: bool, with_infra: bool) -> (r:
        ScaffoldRequest)
        ensures
            r@ == (RequestModel {
                project_name: project_name@,
                template_id: template_id@,
                with_ci,
                with_infra,
            }),
    {
        ScaffoldRequest {
            project_name: String::from_str(project_name),
            template_id: String::from_str(template_id),
            with_ci,
            with_infra,
        }
    }

    /// A copy of this request.
    pub fn duplicate(&self) -> (r: ScaffoldRequest)
        ensures
            r@ == self@,
    {
        ScaffoldRequest {
            project_name: self.project_name.clone(),
            template_id: self.template_id.clone(),
            with_ci: self.with_ci,
            with_infra: self.with_infra,
        }
    }

    /// The overlays in effect for this request.
    pub fn effective_overlays(&self) -> (e: EffectiveOverlays)
        ensures
            e == effective(self@.with_ci, self@.with_infra),
    {
        compose(self.with_ci, self.with_infra)
    }

    /// The directory that this request creates.
    pub fn project_root(&self) -> (root: TreePath)
        ensures
            root@ == project_root(self@),
    {
        TreePath::single(self.project_name.as_str())
    }

    /// Where the sources of this request are looked for.
    pub fn sources(&self) -> (s: ResolvedSources)
        ensures
            s@ == sources_of(self@),
    {
        let e = self.effective_overlays();
        let base_path = TreePath::single("templates").join(self.template_id.as_str());
        let ci_overlay_path = if e.ci {
            Some(TreePath::single("extras").join(".github"))
        } else {
            None
        };
        let infra_overlay_path = if e.infra {
            Some(TreePath::single("extras").join("terraform"))
        } else {
            None
        };
        assert(base_path@ =~= template_dir(self@.template_id));
        assert(e.ci ==> ci_overlay_path.unwrap()@ =~= ci_source());
        assert(e.infra ==> infra_overlay_path.unwrap()@ =~= infra_source());
        ResolvedSources { base_path, ci_overlay_path, infra_overlay_path }
    }
}

impl ResolvedSources {
    /// A copy of these sources.
    pub fn duplicate(&self) -> (s: ResolvedSources)
        ensures
            s@ == self@,
    {
        ResolvedSources {
            base_path: self.base_path.duplicate(),
            ci_overlay_path: match &self.ci_overlay_path {
                Some(p) => Some(p.duplicate()),
                None => None,
            },
            infra_overlay_path: match &self.infra_overlay_path {
                Some(p) => Some(p.duplicate()),
                None => None,
            },
        }
    }

    /// The overlays that these sources bring in, CI first.
    pub fn overlays(&self) -> (list: Vec<Overlay>)
        ensures
            list@ == overlays_of(self@),
    {
        let mut list: Vec<Overlay> = Vec::new();
        if self.ci_overlay_path.is_some() {
            list.push(Overlay::Ci);
        }
        if self.infra_overlay_path.is_some() {
            list.push(Overlay::Infra);
        }
        assert(list@ =~= overlays_of(self@));
        list
    }

    /// The trees to materialize below `root`, in order.
    pub fn tasks(&self, root: &TreePath) -> (tasks: Vec<MaterializationTask>)
        ensures
            task_models(tasks@) == tasks_for(root@, self@),
    {
        let mut tasks: Vec<MaterializationTask> = Vec::new();
        tasks.push(
            MaterializationTask { source_dir: self.base_path.duplicate(), dest_dir: root.duplicate() },
        );
        match &self.ci_overlay_path {
            Some(p) => {
                tasks.push(
                    MaterializationTask { source_dir: p.duplicate(), dest_dir: root.join(".github") },
                );
            },
            None => {},
        }
        match &self.infra_overlay_path {
            Some(p) => {
                tasks.push(
                    MaterializationTask {
                        source_dir: p.duplicate(),
                        dest_dir: root.join("terraform"),
                    },
                );
            },
            None => {},
        }
        assert(task_models(tasks@) =~= tasks_for(root@, self@));
        tasks
    }
}

impl MaterializationTask {
    /// The same source and destination, held anew.
    pub fn duplicate(&self) -> (t: MaterializationTask)
        ensures
            t@ == self@,
    {
        MaterializationTask {
            source_dir: self.source_dir.duplicate(),
            dest_dir: self.dest_dir.duplicate(),
        }
    }
}

} // verus!
