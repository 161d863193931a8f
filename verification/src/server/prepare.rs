//! From a request to what the compiler is told.
//!
//! The compiler follows the paths inside a source on its own and writes where it is told to.
//! So before it runs, every path it is given is resolved in the workspace, and the source and
//! all it pulls in are searched for paths that leave it. A source without a file is copied to
//! a scratch directory first.
//!
//! The preparation is a walk: each step names what it needs to be done outside and is told
//! what came of it.

use vstd::prelude::*;

use crate::error::{CoreError, ErrorView, IoError, IoKind};
use crate::import_scan;
use crate::import_scan::{assert_imports_contained, Files, ScanStep, StepView};
use crate::path;
use crate::path::AbsPath;
use crate::text;
use crate::text::clone_opt;
use crate::toolchain::compile::{CompileRequest, RequestView};
use crate::workspace;
use crate::workspace::{
    FileWrite, Probe, ProbeView, ResolveStep, Resolving, ResolvingView, Workspace,
};

use super::input::SourceInput;

verus! {

broadcast use vstd::string::group_string_axioms;

/// Where the compiler writes unless a request says otherwise, relative to the workspace root.
pub const DEFAULT_TARGET_DIR: &'static str = "build";

/// How long the compile behind a witness scaffold may take, in seconds.
pub const SCAFFOLD_TIMEOUT_SECS: u64 = 300;

/// What a request to compile says.
#[derive(Debug)]
pub struct CompileArgs {
    pub input: SourceInput,
    /// Relative to the workspace root.
    pub target_dir: Option<String>,
    pub skip_zk: bool,
    pub no_communications_commitment: bool,
    /// Relative to the workspace root.
    pub source_root: Option<String>,
}

/// Where the compiler is to write.
pub enum TargetView {
    /// At a path that is still to be resolved.
    Given(Seq<char>),
    At(Seq<Seq<char>>),
}

/// What every step of the preparation knows.
pub struct PlanView {
    pub root: Seq<Seq<char>>,
    /// The text of the source.
    pub source_text: Seq<char>,
    pub target: TargetView,
    pub skip_zk: bool,
    pub no_communications_commitment: bool,
    pub source_root: Option<Seq<char>>,
}

/// A step of the preparation: what it waits for.
pub enum BuildView {
    /// What the file system says of the source's path while it is resolved.
    Source { plan: PlanView, at: ResolvingView },
    /// That a directory was made and the source copied to `input.compact` in it.
    Copy { plan: PlanView, dir: Seq<Seq<char>> },
    /// The next step of the search through the source.
    Scan { plan: PlanView, source: Seq<Seq<char>>, step: StepView },
    /// What the file system says of the target directory while it is resolved.
    Target { plan: PlanView, source: Seq<Seq<char>>, at: ResolvingView },
    /// What the file system says of the source root while it is resolved.
    Root { plan: PlanView, source: Seq<Seq<char>>, target: Seq<Seq<char>>, at: ResolvingView },
    Ready(RequestView),
    Refused(ErrorView),
}

/// The scratch directory for `prefix` and `id`.
pub open spec fn scratch(root: Seq<Seq<char>>, prefix: Seq<char>, id: Seq<char>) -> Seq<Seq<char>> {
    path::names_of(path::components(workspace::scope_dir(root, prefix, id)))
}

/// What is told to the compiler.
pub open spec fn request(
    plan: PlanView,
    source: Seq<Seq<char>>,
    target: Seq<Seq<char>>,
    source_root: Option<Seq<char>>,
) -> RequestView {
    RequestView {
        source,
        target_dir: target,
        skip_zk: plan.skip_zk,
        no_communications_commitment: plan.no_communications_commitment,
        source_root,
    }
}

/// The step once the target directory is known.
pub open spec fn with_target(
    plan: PlanView,
    source: Seq<Seq<char>>,
    target: Seq<Seq<char>>,
) -> BuildView {
    match plan.source_root {
        Some(p) => BuildView::Root {
            plan,
            source,
            target,
            at: workspace::start_resolving(plan.root, p),
        },
        None => BuildView::Ready(request(plan, source, target, None)),
    }
}

/// The step after one step of the search through the source.
pub open spec fn after_scan(plan: PlanView, source: Seq<Seq<char>>, step: StepView) -> BuildView {
    match step {
        StepView::Done { verdict: Err(e), .. } => BuildView::Refused(e),
        StepView::Done { verdict: Ok(()), .. } => match plan.target {
            TargetView::Given(p) => BuildView::Target {
                plan,
                source,
                at: workspace::start_resolving(plan.root, p),
            },
            TargetView::At(target) => with_target(plan, source, target),
        },
        _ => BuildView::Scan { plan, source, step },
    }
}

/// The step once the source has a place.
pub open spec fn with_source(plan: PlanView, source: Seq<Seq<char>>) -> BuildView {
    after_scan(plan, source, import_scan::start_scan(plan.root, source, plan.source_text))
}

/// The step after one look at the file system while the source is resolved.
pub open spec fn after_source(plan: PlanView, at: ResolvingView, probe: ProbeView) -> BuildView {
    match workspace::resolve_step(at, probe) {
        Ok(next) => BuildView::Source { plan, at: next },
        Err(v) => match workspace::reported(v) {
            Ok(source) => with_source(plan, source),
            Err(e) => BuildView::Refused(e),
        },
    }
}

/// The step after the source was copied.
pub open spec fn after_copy(
    plan: PlanView,
    dir: Seq<Seq<char>>,
    made: Result<(), (IoKind, Seq<char>)>,
) -> BuildView {
    match made {
        Ok(()) => with_source(plan, dir.push("input.compact"@)),
        Err((kind, message)) => BuildView::Refused(ErrorView::Io(kind, message)),
    }
}

/// The step after one look at the file system while the target directory is resolved.
pub open spec fn after_target(
    plan: PlanView,
    source: Seq<Seq<char>>,
    at: ResolvingView,
    probe: ProbeView,
) -> BuildView {
    match workspace::resolve_step(at, probe) {
        Ok(next) => BuildView::Target { plan, source, at: next },
        Err(v) => match workspace::reported(v) {
            Ok(target) => with_target(plan, source, target),
            Err(e) => BuildView::Refused(e),
        },
    }
}

/// The step after one look at the file system while the source root is resolved.
pub open spec fn after_root(
    plan: PlanView,
    source: Seq<Seq<char>>,
    target: Seq<Seq<char>>,
    at: ResolvingView,
    probe: ProbeView,
) -> BuildView {
    match workspace::resolve_step(at, probe) {
        Ok(next) => BuildView::Root { plan, source, target, at: next },
        Err(v) => match workspace::reported(v) {
            Ok(names) => BuildView::Ready(
                request(plan, source, target, Some(path::render(names))),
            ),
            Err(e) => BuildView::Refused(e),
        },
    }
}

/// What is planned for a request to compile the source `source_text`.
pub open spec fn compile_plan(
    root: Seq<Seq<char>>,
    args: CompileArgs,
    source_text: Seq<char>,
) -> PlanView {
    PlanView {
        root,
        source_text,
        target: TargetView::Given(
            match args.target_dir {
                Some(d) => d@,
                None => DEFAULT_TARGET_DIR@,
            },
        ),
        skip_zk: args.skip_zk,
        no_communications_commitment: args.no_communications_commitment,
        source_root: text::opt_view(args.source_root),
    }
}

/// The first step for a request to compile: a source without a file is copied.
pub open spec fn start_compile(
    root: Seq<Seq<char>>,
    args: CompileArgs,
    source_text: Seq<char>,
    id: Seq<char>,
) -> BuildView {
    let plan = compile_plan(root, args, source_text);
    match args.input.path {
        Some(p) => BuildView::Source { plan, at: workspace::start_resolving(root, p@) },
        None => BuildView::Copy { plan, dir: scratch(root, "compile"@, id) },
    }
}

/// The first step for a witness scaffold: the source is copied, and compiled without proving
/// keys into the directory of the copy.
pub open spec fn start_scaffold(
    root: Seq<Seq<char>>,
    source_text: Seq<char>,
    id: Seq<char>,
) -> BuildView {
    let dir = scratch(root, "scaffold"@, id);
    BuildView::Copy {
        plan: PlanView {
            root,
            source_text,
            target: TargetView::At(dir.push("out"@)),
            skip_zk: true,
            no_communications_commitment: false,
            source_root: None,
        },
        dir,
    }
}

// ---------------------------------------------------------------------------
// The walk
// ---------------------------------------------------------------------------

#[derive(Debug)]
enum Target {
    Given(String),
    At(AbsPath),
}

#[derive(Debug)]
struct Plan {
    ws: Workspace,
    source_text: String,
    target: Target,
    skip_zk: bool,
    no_communications_commitment: bool,
    source_root: Option<String>,
}

spec fn plan_view(plan: Plan) -> PlanView {
    PlanView {
        root: plan.ws@,
        source_text: plan.source_text@,
        target: match plan.target {
            Target::Given(p) => TargetView::Given(p@),
            Target::At(p) => TargetView::At(p@),
        },
        skip_zk: plan.skip_zk,
        no_communications_commitment: plan.no_communications_commitment,
        source_root: text::opt_view(plan.source_root),
    }
}

/// The path of the source is being resolved.
#[derive(Debug)]
pub struct BuildSource {
    plan: Plan,
    at: Resolving,
}

/// The source is to be copied.
#[derive(Debug)]
pub struct BuildCopy {
    plan: Plan,
    dir: AbsPath,
    file: FileWrite,
}

/// The source is being searched.
#[derive(Debug)]
pub struct BuildScan {
    plan: Plan,
    source: AbsPath,
    scan: ScanStep,
}

/// A preparation that waits for the next step of the search.
#[derive(Debug)]
pub struct BuildPending {
    plan: Plan,
    source: AbsPath,
}

/// The target directory is being resolved.
#[derive(Debug)]
pub struct BuildTarget {
    plan: Plan,
    source: AbsPath,
    at: Resolving,
}

/// The source root is being resolved.
#[derive(Debug)]
pub struct BuildRoot {
    plan: Plan,
    source: AbsPath,
    target: AbsPath,
    at: Resolving,
}

/// A step of the preparation.
#[derive(Debug)]
pub enum BuildStep {
    Source(BuildSource),
    Copy(BuildCopy),
    Scan(BuildScan),
    Target(BuildTarget),
    Root(BuildRoot),
    Ready(CompileRequest),
    Refused(CoreError),
}

/// Whether a step is what the model says it is.
pub open spec fn step_is(r: BuildStep, v: BuildView) -> bool {
    match r {
        BuildStep::Source(s) => v == (BuildView::Source { plan: s.plan(), at: s.at() }),
        BuildStep::Copy(s) => v == (BuildView::Copy { plan: s.plan(), dir: s.place() }),
        BuildStep::Scan(s) => v matches BuildView::Scan { plan, source, step } && plan == s.plan()
            && source == s.source() && import_scan::step_is(s.scan(), step),
        BuildStep::Target(s) => v == (BuildView::Target {
            plan: s.plan(),
            source: s.source(),
            at: s.at(),
        }),
        BuildStep::Root(s) => v == (BuildView::Root {
            plan: s.plan(),
            source: s.source(),
            target: s.target(),
            at: s.at(),
        }),
        BuildStep::Ready(req) => v == BuildView::Ready(req@),
        BuildStep::Refused(e) => v == BuildView::Refused(e@),
    }
}

proof fn lemma_copy_name()
    ensures
        path::plain_name("input.compact"@),
{
    reveal_strlit("input.compact");
    let name = "input.compact"@;
    assert(name.len() == 13);
    assert forall|i: int| 0 <= i < name.len() implies name[i] != '/' by {}
}

impl Plan {
    fn request(self, source: AbsPath, target: AbsPath, source_root: Option<String>) -> (r:
        CompileRequest)
        ensures
            r@ == request(plan_view(self), source@, target@, text::opt_view(source_root)),
    {
        CompileRequest {
            source,
            target_dir: target,
            skip_zk: self.skip_zk,
            no_communications_commitment: self.no_communications_commitment,
            source_root,
        }
    }

    fn with_target(self, source: AbsPath, target: AbsPath) -> (r: BuildStep)
        ensures
            step_is(r, with_target(plan_view(self), source@, target@)),
    {
        match &self.source_root {
            Some(p) => {
                let at = self.ws.resolve(p.as_str());
                BuildStep::Root(BuildRoot { plan: self, source, target, at })
            },
            None => BuildStep::Ready(self.request(source, target, None)),
        }
    }

    fn after_scan(self, source: AbsPath, scan: ScanStep) -> (r: BuildStep)
        ensures
            forall|v: StepView| #[trigger]
                import_scan::step_is(scan, v) ==> step_is(
                    r,
                    after_scan(plan_view(self), source@, v),
                ),
    {
        match scan {
            ScanStep::Done(Err(e)) => BuildStep::Refused(e),
            ScanStep::Done(Ok(())) => {
                match &self.target {
                    Target::Given(p) => {
                        let at = self.ws.resolve(p.as_str());
                        BuildStep::Target(BuildTarget { plan: self, source, at })
                    },
                    Target::At(t) => {
                        let target = t.duplicate();
                        self.with_target(source, target)
                    },
                }
            },
            scan => BuildStep::Scan(BuildScan { plan: self, source, scan }),
        }
    }

    fn with_source(self, source: AbsPath) -> (r: BuildStep)
        ensures
            step_is(r, with_source(plan_view(self), source@)),
    {
        let scan = assert_imports_contained(&self.ws, &source, self.source_text.as_str());
        proof {
            assert(import_scan::step_is(
                scan,
                import_scan::start_scan(self.ws@, source@, self.source_text@),
            ));
        }
        self.after_scan(source, scan)
    }

    /// The step that copies the source to the scratch directory `dir`.
    fn copy(self, dir: AbsPath) -> (r: BuildStep)
        ensures
            step_is(r, BuildView::Copy { plan: plan_view(self), dir: dir@ }),
    {
        proof {
            lemma_copy_name();
        }
        let file = FileWrite {
            path: dir.child(&"input.compact".to_owned()).text(),
            contents: self.source_text.as_str().to_owned(),
        };
        BuildStep::Copy(BuildCopy { plan: self, dir, file })
    }
}

impl BuildSource {
    pub closed spec fn plan(&self) -> PlanView {
        plan_view(self.plan)
    }

    pub closed spec fn at(&self) -> ResolvingView {
        self.at@
    }

    /// The path to look at.
    pub fn path(&self) -> (r: String)
        ensures
            r@ == workspace::probed_text(self.at()),
    {
        self.at.path()
    }

    /// The step after what the file system says of [`BuildSource::path`].
    pub fn step(self, probe: Probe) -> (r: BuildStep)
        ensures
            step_is(r, after_source(self.plan(), self.at(), probe@)),
    {
        let BuildSource { plan, at } = self;
        match at.step(probe) {
            ResolveStep::Look(at) => BuildStep::Source(BuildSource { plan, at }),
            ResolveStep::Done(Ok(source)) => plan.with_source(source),
            ResolveStep::Done(Err(e)) => BuildStep::Refused(e),
        }
    }
}

impl BuildCopy {
    #[verifier::type_invariant]
    spec fn copies_the_source(self) -> bool {
        &&& self.file.path@ == path::render(self.dir@.push("input.compact"@))
        &&& self.file.contents@ == self.plan.source_text@
    }

    pub closed spec fn plan(&self) -> PlanView {
        plan_view(self.plan)
    }

    pub closed spec fn place(&self) -> Seq<Seq<char>> {
        self.dir@
    }

    /// The directory to make, with those above it.
    pub fn dir(&self) -> (r: String)
        ensures
            r@ == path::render(self.place()),
    {
        self.dir.text()
    }

    /// The file to write into it.
    pub fn file(&self) -> (r: &FileWrite)
        ensures
            r.path@ == path::render(self.place().push("input.compact"@)),
            r.contents@ == self.plan().source_text,
    {
        proof {
            use_type_invariant(self);
        }
        &self.file
    }

    /// The step after the directory was made and the copy written.
    pub fn step(self, made: Result<(), IoError>) -> (r: BuildStep)
        ensures
            step_is(
                r,
                after_copy(
                    self.plan(),
                    self.place(),
                    match made {
                        Ok(()) => Ok(()),
                        Err(e) => Err(import_scan::io_view(e)),
                    },
                ),
            ),
    {
        match made {
            Ok(()) => {
                proof {
                    lemma_copy_name();
                }
                let BuildCopy { plan, dir, file: _ } = self;
                let source = dir.child(&"input.compact".to_owned());
                plan.with_source(source)
            },
            Err(e) => BuildStep::Refused(CoreError::Io(e)),
        }
    }
}

impl BuildScan {
    pub closed spec fn plan(&self) -> PlanView {
        plan_view(self.plan)
    }

    pub closed spec fn source(&self) -> Seq<Seq<char>> {
        self.source@
    }

    pub closed spec fn scan(&self) -> ScanStep {
        self.scan
    }

    /// The search, which is to be taken one step further, and what waits for it.
    pub fn into_scan(self) -> (r: (BuildPending, ScanStep))
        ensures
            r.0.plan() == self.plan(),
            r.0.source() == self.source(),
            r.1 == self.scan(),
    {
        let BuildScan { plan, source, scan } = self;
        (BuildPending { plan, source }, scan)
    }
}

impl BuildPending {
    pub closed spec fn plan(&self) -> PlanView {
        plan_view(self.plan)
    }

    pub closed spec fn source(&self) -> Seq<Seq<char>> {
        self.source@
    }

    /// The step after the search was taken one step further, to `next`.
    pub fn step(self, next: ScanStep) -> (r: BuildStep)
        ensures
            forall|v: StepView| #[trigger]
                import_scan::step_is(next, v) ==> step_is(
                    r,
                    after_scan(self.plan(), self.source(), v),
                ),
    {
        self.plan.after_scan(self.source, next)
    }
}

impl BuildTarget {
    pub closed spec fn plan(&self) -> PlanView {
        plan_view(self.plan)
    }

    pub closed spec fn source(&self) -> Seq<Seq<char>> {
        self.source@
    }

    pub closed spec fn at(&self) -> ResolvingView {
        self.at@
    }

    /// The path to look at.
    pub fn path(&self) -> (r: String)
        ensures
            r@ == workspace::probed_text(self.at()),
    {
        self.at.path()
    }

    /// The step after what the file system says of [`BuildTarget::path`].
    pub fn step(self, probe: Probe) -> (r: BuildStep)
        ensures
            step_is(r, after_target(self.plan(), self.source(), self.at(), probe@)),
    {
        let BuildTarget { plan, source, at } = self;
        match at.step(probe) {
            ResolveStep::Look(at) => BuildStep::Target(BuildTarget { plan, source, at }),
            ResolveStep::Done(Ok(target)) => plan.with_target(source, target),
            ResolveStep::Done(Err(e)) => BuildStep::Refused(e),
        }
    }
}

impl BuildRoot {
    pub closed spec fn plan(&self) -> PlanView {
        plan_view(self.plan)
    }

    pub closed spec fn source(&self) -> Seq<Seq<char>> {
        self.source@
    }

    pub closed spec fn target(&self) -> Seq<Seq<char>> {
        self.target@
    }

    pub closed spec fn at(&self) -> ResolvingView {
        self.at@
    }

    /// The path to look at.
    pub fn path(&self) -> (r: String)
        ensures
            r@ == workspace::probed_text(self.at()),
    {
        self.at.path()
    }

    /// The step after what the file system says of [`BuildRoot::path`].
    pub fn step(self, probe: Probe) -> (r: BuildStep)
        ensures
            step_is(r, after_root(self.plan(), self.source(), self.target(), self.at(), probe@)),
    {
        let BuildRoot { plan, source, target, at } = self;
        match at.step(probe) {
            ResolveStep::Look(at) => BuildStep::Root(BuildRoot { plan, source, target, at }),
            ResolveStep::Done(Ok(names)) => {
                let text = names.text();
                BuildStep::Ready(plan.request(source, target, Some(text)))
            },
            ResolveStep::Done(Err(e)) => BuildStep::Refused(e),
        }
    }
}

/// A new scratch directory for `prefix`.
fn new_scratch(ws: &Workspace, prefix: &str) -> (r: Result<AbsPath, CoreError>)
    requires
        path::plain_name(prefix@),
    ensures
        r matches Ok(d) && exists|id: Seq<char>|
            workspace::uuid_text(id) && d@ == #[trigger] scratch(ws@, prefix@, id),
{
    let id = workspace::new_uuid();
    let root = ws.root().duplicate();
    proof {
        assert(root@ == ws@);
        workspace::law_scratch_directories_lie_in_the_root(ws@, prefix@, id@);
    }
    let scope = match ws.scope_for(prefix, id.as_str()) {
        Ok(scope) => scope,
        Err(e) => {
            return Err(e);
        },
    };
    match AbsPath::parse(scope.path()) {
        Some(dir) => {
            assert(dir@ == scratch(ws@, prefix@, id@));
            Ok(dir)
        },
        None => Err(CoreError::PathEscape(scope.path().to_owned())),
    }
}

/// Starts to prepare the compile that a request asks for; `source_text` is the text of its
/// source.
pub fn prepare_compile(ws: &Workspace, args: &CompileArgs, source_text: &str) -> (r: BuildStep)
    ensures
        exists|id: Seq<char>|
            workspace::uuid_text(id) && step_is(
                r,
                #[trigger] start_compile(ws@, *args, source_text@, id),
            ),
{
    let given = match &args.target_dir {
        Some(d) => d.as_str().to_owned(),
        None => DEFAULT_TARGET_DIR.to_owned(),
    };
    let plan = Plan {
        ws: ws.duplicate(),
        source_text: source_text.to_owned(),
        target: Target::Given(given),
        skip_zk: args.skip_zk,
        no_communications_commitment: args.no_communications_commitment,
        source_root: clone_opt(&args.source_root),
    };
    assert(plan_view(plan) == compile_plan(ws@, *args, source_text@));
    match &args.input.path {
        Some(p) => {
            let id = workspace::new_uuid();
            let at = ws.resolve(p.as_str());
            let r = BuildStep::Source(BuildSource { plan, at });
            assert(step_is(r, start_compile(ws@, *args, source_text@, id@)));
            r
        },
        None => {
            proof {
                reveal_strlit("compile");
            }
            let dir = match new_scratch(ws, "compile") {
                Ok(dir) => dir,
                Err(e) => {
                    return BuildStep::Refused(e);
                },
            };
            let ghost id = choose|id: Seq<char>|
                workspace::uuid_text(id) && dir@ == #[trigger] scratch(ws@, "compile"@, id);
            let r = plan.copy(dir);
            assert(step_is(r, start_compile(ws@, *args, source_text@, id)));
            r
        },
    }
}

/// Starts to prepare the compile behind a witness scaffold for the source `source_text`.
pub fn prepare_scaffold(ws: &Workspace, source_text: &str) -> (r: BuildStep)
    ensures
        exists|id: Seq<char>|
            workspace::uuid_text(id) && step_is(
                r,
                #[trigger] start_scaffold(ws@, source_text@, id),
            ),
{
    proof {
        reveal_strlit("scaffold");
        reveal_strlit("out");
    }
    let dir = match new_scratch(ws, "scaffold") {
        Ok(dir) => dir,
        Err(e) => {
            return BuildStep::Refused(e);
        },
    };
    let ghost id = choose|id: Seq<char>|
        workspace::uuid_text(id) && dir@ == #[trigger] scratch(ws@, "scaffold"@, id);
    let plan = Plan {
        ws: ws.duplicate(),
        source_text: source_text.to_owned(),
        target: Target::At(dir.child(&"out".to_owned())),
        skip_zk: true,
        no_communications_commitment: false,
        source_root: None,
    };
    let r = plan.copy(dir);
    assert(step_is(r, start_scaffold(ws@, source_text@, id)));
    r
}

// ---------------------------------------------------------------------------
// Laws
// ---------------------------------------------------------------------------

/// Whether `b` comes directly after `a` where the search is answered as `files` says.
pub open spec fn follows(a: BuildView, b: BuildView, files: Files) -> bool {
    match a {
        BuildView::Source { plan, at } => exists|probe: ProbeView| b == after_source(plan, at, probe),
        BuildView::Copy { plan, dir } => exists|made: Result<(), (IoKind, Seq<char>)>|
            b == after_copy(plan, dir, made),
        BuildView::Scan { plan, source, step } => b == after_scan(
            plan,
            source,
            import_scan::scan_step(step, files),
        ),
        BuildView::Target { plan, source, at } => exists|probe: ProbeView|
            b == after_target(plan, source, at, probe),
        BuildView::Root { plan, source, target, at } => exists|probe: ProbeView|
            b == after_root(plan, source, target, at, probe),
        BuildView::Ready(_) => false,
        BuildView::Refused(_) => false,
    }
}

/// Whether the search through the source lets it through.
pub open spec fn let_through(
    root: Seq<Seq<char>>,
    source: Seq<Seq<char>>,
    source_text: Seq<char>,
    files: Files,
) -> bool {
    exists|n: nat|
        #[trigger] import_scan::scan_run(
            import_scan::start_scan(root, source, source_text),
            files,
            n,
        ) matches StepView::Done { verdict: Ok(()), .. }
}

/// Whether these are the steps of the preparation of a compile, from the first on.
pub open spec fn walk(
    root: Seq<Seq<char>>,
    first: BuildView,
    steps: Seq<BuildView>,
    files: Files,
) -> bool {
    &&& steps.len() > 0
    &&& steps[0] == first
    &&& forall|i: int| 0 < i < steps.len() ==> follows(steps[i - 1], #[trigger] steps[i], files)
}

spec fn planned(plan: PlanView, root: Seq<Seq<char>>, source_text: Seq<char>) -> bool {
    &&& plan.root == root
    &&& plan.source_text == source_text
    &&& plan.target matches TargetView::At(t) ==> root.is_prefix_of(t)
}

/// What holds of every step.
spec fn held(root: Seq<Seq<char>>, source_text: Seq<char>, files: Files, step: BuildView) -> bool {
    match step {
        BuildView::Source { plan, at } => planned(plan, root, source_text) && at.root == root,
        BuildView::Copy { plan, dir } => planned(plan, root, source_text) && root.is_prefix_of(dir),
        BuildView::Scan { plan, source, step } => planned(plan, root, source_text)
            && root.is_prefix_of(source) && !(step is Done) && exists|n: nat|
            #[trigger] import_scan::scan_run(
                import_scan::start_scan(root, source, source_text),
                files,
                n,
            ) == step,
        BuildView::Target { plan, source, at } => planned(plan, root, source_text)
            && root.is_prefix_of(source) && at.root == root && let_through(
            root,
            source,
            source_text,
            files,
        ),
        BuildView::Root { plan, source, target, at } => planned(plan, root, source_text)
            && root.is_prefix_of(source) && root.is_prefix_of(target) && at.root == root
            && let_through(root, source, source_text, files),
        BuildView::Ready(req) => root.is_prefix_of(req.source) && root.is_prefix_of(req.target_dir)
            && let_through(root, req.source, source_text, files) && (req.source_root matches Some(t)
            ==> exists|names: Seq<Seq<char>>|
            root.is_prefix_of(names) && t == #[trigger] path::render(names)),
        BuildView::Refused(_) => true,
    }
}

proof fn lemma_one_more(first: StepView, files: Files, n: nat, step: StepView)
    requires
        import_scan::scan_run(first, files, n) == step,
        !(step is Done),
    ensures
        import_scan::scan_run(first, files, n + 1) == import_scan::scan_step(step, files),
    decreases n,
{
    reveal_with_fuel(import_scan::scan_run, 2);
    if n > 0 && !(first is Done) {
        lemma_one_more(import_scan::scan_step(first, files), files, (n - 1) as nat, step);
    }
}

proof fn lemma_with_target(
    root: Seq<Seq<char>>,
    source_text: Seq<char>,
    files: Files,
    plan: PlanView,
    source: Seq<Seq<char>>,
    target: Seq<Seq<char>>,
)
    requires
        planned(plan, root, source_text),
        root.is_prefix_of(source),
        root.is_prefix_of(target),
        let_through(root, source, source_text, files),
    ensures
        held(root, source_text, files, with_target(plan, source, target)),
{
}

proof fn lemma_after_scan(
    root: Seq<Seq<char>>,
    source_text: Seq<char>,
    files: Files,
    plan: PlanView,
    source: Seq<Seq<char>>,
    n: nat,
)
    requires
        planned(plan, root, source_text),
        root.is_prefix_of(source),
    ensures
        held(
            root,
            source_text,
            files,
            after_scan(
                plan,
                source,
                import_scan::scan_run(
                    import_scan::start_scan(root, source, source_text),
                    files,
                    n,
                ),
            ),
        ),
{
    let step = import_scan::scan_run(
        import_scan::start_scan(root, source, source_text),
        files,
        n,
    );
    match step {
        StepView::Done { verdict: Ok(()), .. } => {
            assert(let_through(root, source, source_text, files));
            match plan.target {
                TargetView::At(t) => {
                    lemma_with_target(root, source_text, files, plan, source, t);
                },
                TargetView::Given(_) => {},
            }
        },
        _ => {},
    }
}

proof fn lemma_with_source(
    root: Seq<Seq<char>>,
    source_text: Seq<char>,
    files: Files,
    plan: PlanView,
    source: Seq<Seq<char>>,
)
    requires
        planned(plan, root, source_text),
        root.is_prefix_of(source),
    ensures
        held(root, source_text, files, with_source(plan, source)),
{
    lemma_after_scan(root, source_text, files, plan, source, 0);
}

proof fn lemma_held(
    root: Seq<Seq<char>>,
    source_text: Seq<char>,
    files: Files,
    a: BuildView,
    b: BuildView,
)
    requires
        held(root, source_text, files, a),
        follows(a, b, files),
    ensures
        held(root, source_text, files, b),
{
    match a {
        BuildView::Source { plan, at } => {
            let probe = choose|probe: ProbeView| b == after_source(plan, at, probe);
            match workspace::resolve_step(at, probe) {
                Ok(_) => {},
                Err(v) => match v {
                    Ok(source) => {
                        lemma_with_source(root, source_text, files, plan, source);
                    },
                    Err(_) => {},
                },
            }
        },
        BuildView::Copy { plan, dir } => {
            let source = dir.push("input.compact"@);
            assert(root.is_prefix_of(source));
            lemma_with_source(root, source_text, files, plan, source);
        },
        BuildView::Scan { plan, source, step } => {
            let first = import_scan::start_scan(root, source, source_text);
            let n = choose|n: nat| #[trigger] import_scan::scan_run(first, files, n) == step;
            lemma_one_more(first, files, n, step);
            lemma_after_scan(root, source_text, files, plan, source, n + 1);
        },
        BuildView::Target { plan, source, at } => {
            let probe = choose|probe: ProbeView| b == after_target(plan, source, at, probe);
            match workspace::resolve_step(at, probe) {
                Ok(_) => {},
                Err(v) => match v {
                    Ok(target) => {
                        lemma_with_target(root, source_text, files, plan, source, target);
                    },
                    Err(_) => {},
                },
            }
        },
        BuildView::Root { plan, source, target, at } => {
            let probe = choose|probe: ProbeView| b == after_root(plan, source, target, at, probe);
            match workspace::resolve_step(at, probe) {
                Ok(_) => {},
                Err(v) => match v {
                    Ok(names) => {
                        assert(root.is_prefix_of(names));
                        assert(path::render(names) == path::render(names));
                    },
                    Err(_) => {},
                },
            }
        },
        _ => {},
    }
}

proof fn lemma_walk_held(
    root: Seq<Seq<char>>,
    source_text: Seq<char>,
    files: Files,
    first: BuildView,
    steps: Seq<BuildView>,
    i: int,
)
    requires
        walk(root, first, steps, files),
        held(root, source_text, files, first),
        0 <= i < steps.len(),
    ensures
        held(root, source_text, files, steps[i]),
    decreases i,
{
    if i > 0 {
        lemma_walk_held(root, source_text, files, first, steps, i - 1);
        assert(follows(steps[i - 1], steps[i], files));
        lemma_held(root, source_text, files, steps[i - 1], steps[i]);
    }
}

proof fn lemma_scratch_inside(root: Seq<Seq<char>>, prefix: Seq<char>, id: Seq<char>)
    requires
        path::plain_names(root),
        path::plain_name(prefix),
        workspace::uuid_text(id),
    ensures
        root.is_prefix_of(scratch(root, prefix, id)),
{
    workspace::law_scratch_directories_lie_in_the_root(root, prefix, id);
    let tmp = root.push(workspace::TEMP_DIR@);
    let s = scratch(root, prefix, id);
    assert(tmp.is_prefix_of(s));
    assert(s.take(root.len() as int) =~= root) by {
        assert forall|i: int| 0 <= i < root.len() implies s[i] == root[i] by {
            assert(s.take(tmp.len() as int)[i] == tmp[i]);
        }
    }
}

/// Whatever a request asks for, and however the file system answers, the compiler is run only
/// on a source in the workspace root, writing to a directory in the root, with a source root
/// in the root, and only after the search through the source let it through: so everything it
/// pulls in, however indirectly, lies in the root as well.
pub proof fn law_compiles_stay_inside_the_root(
    root: Seq<Seq<char>>,
    args: CompileArgs,
    source_text: Seq<char>,
    id: Seq<char>,
    steps: Seq<BuildView>,
    files: Files,
    i: int,
)
    requires
        path::plain_names(root),
        workspace::uuid_text(id),
        walk(root, start_compile(root, args, source_text, id), steps, files),
        0 <= i < steps.len(),
    ensures
        steps[i] matches BuildView::Ready(req) ==> {
            &&& root.is_prefix_of(req.source)
            &&& root.is_prefix_of(req.target_dir)
            &&& req.source_root matches Some(t) ==> exists|names: Seq<Seq<char>>|
                root.is_prefix_of(names) && t == #[trigger] path::render(names)
            &&& let_through(root, req.source, source_text, files)
        },
{
    assert(path::plain_name("compile"@)) by {
        reveal_strlit("compile");
    }
    lemma_scratch_inside(root, "compile"@, id);
    lemma_walk_held(
        root,
        source_text,
        files,
        start_compile(root, args, source_text, id),
        steps,
        i,
    );
}

/// The compile behind a witness scaffold stays in the workspace root in the same way.
pub proof fn law_scaffolds_stay_inside_the_root(
    root: Seq<Seq<char>>,
    source_text: Seq<char>,
    id: Seq<char>,
    steps: Seq<BuildView>,
    files: Files,
    i: int,
)
    requires
        path::plain_names(root),
        workspace::uuid_text(id),
        walk(root, start_scaffold(root, source_text, id), steps, files),
        0 <= i < steps.len(),
    ensures
        steps[i] matches BuildView::Ready(req) ==> {
            &&& root.is_prefix_of(req.source)
            &&& root.is_prefix_of(req.target_dir)
            &&& let_through(root, req.source, source_text, files)
        },
{
    lemma_scaffold_held(root, source_text, files, id);
    lemma_walk_held(root, source_text, files, start_scaffold(root, source_text, id), steps, i);
}

proof fn lemma_scaffold_held(
    root: Seq<Seq<char>>,
    source_text: Seq<char>,
    files: Files,
    id: Seq<char>,
)
    requires
        path::plain_names(root),
        workspace::uuid_text(id),
    ensures
        held(root, source_text, files, start_scaffold(root, source_text, id)),
{
    assert(path::plain_name("scaffold"@)) by {
        reveal_strlit("scaffold");
    }
    lemma_scratch_inside(root, "scaffold"@, id);
    let dir = scratch(root, "scaffold"@, id);
    assert(root.is_prefix_of(dir.push("out"@))) by {
        assert(dir.push("out"@).take(root.len() as int) =~= dir.take(root.len() as int));
    }
}

/// A compile is planned as it was asked for: it writes to the directory that was named, or to
/// `build` where none was, and its flags and source root are those of the request.
pub proof fn law_compiles_are_planned_as_asked(
    root: Seq<Seq<char>>,
    args: CompileArgs,
    source_text: Seq<char>,
)
    ensures
        ({
            let plan = compile_plan(root, args, source_text);
            &&& plan.root == root
            &&& plan.source_text == source_text
            &&& args.target_dir matches Some(d) ==> plan.target == TargetView::Given(d@)
            &&& args.target_dir is None ==> plan.target == TargetView::Given("build"@)
            &&& plan.skip_zk == args.skip_zk
            &&& plan.no_communications_commitment == args.no_communications_commitment
            &&& plan.source_root == text::opt_view(args.source_root)
        }),
{
}

/// A source that has a file is compiled where it lies, and any other is copied to a scratch
/// directory of its own.
pub proof fn law_a_source_is_compiled_where_it_lies(
    root: Seq<Seq<char>>,
    args: CompileArgs,
    source_text: Seq<char>,
    id: Seq<char>,
)
    requires
        path::plain_names(root),
        workspace::uuid_text(id),
    ensures
        args.input.path matches Some(p) ==> start_compile(root, args, source_text, id) == (
        BuildView::Source {
            plan: compile_plan(root, args, source_text),
            at: workspace::start_resolving(root, p@),
        }),
        args.input.path is None ==> start_compile(root, args, source_text, id) == (BuildView::Copy {
            plan: compile_plan(root, args, source_text),
            dir: root.push(".compact-mcp-tmp"@).push("compile"@ + "-"@ + id),
        }),
{
    assert(path::plain_name("compile"@)) by {
        reveal_strlit("compile");
    }
    workspace::law_scratch_directories_lie_in_the_root(root, "compile"@, id);
}

/// A scaffold is made of a copy in a scratch directory, beside which the compiler writes; it is
/// compiled without proving keys and without anything else that was not asked for.
pub proof fn law_scaffolds_are_compiled_in_a_copy(
    root: Seq<Seq<char>>,
    source_text: Seq<char>,
    id: Seq<char>,
)
    requires
        path::plain_names(root),
        workspace::uuid_text(id),
    ensures
        start_scaffold(root, source_text, id) matches BuildView::Copy { plan, dir } && dir
            == root.push(".compact-mcp-tmp"@).push("scaffold"@ + "-"@ + id) && plan.root == root
            && plan.source_text == source_text && plan.target == TargetView::At(dir.push("out"@))
            && plan.skip_zk && !plan.no_communications_commitment && plan.source_root is None,
{
    assert(path::plain_name("scaffold"@)) by {
        reveal_strlit("scaffold");
    }
    workspace::law_scratch_directories_lie_in_the_root(root, "scaffold"@, id);
}

/// The source of a copy is the file in the directory it was copied to, and a copy that failed is
/// refused with the words of the file system.
pub proof fn law_copies_are_compiled_in_their_place(
    plan: PlanView,
    dir: Seq<Seq<char>>,
    kind: IoKind,
    m: Seq<char>,
)
    ensures
        after_copy(plan, dir, Ok(())) == with_source(plan, dir.push("input.compact"@)),
        after_copy(plan, dir, Err((kind, m))) == BuildView::Refused(ErrorView::Io(kind, m)),
{
}

/// Every place is used as it was resolved: the source is searched where it lies, the compiler
/// writes where the target lies, and a place that is refused refuses the compile with its error.
pub proof fn law_resolved_places_are_used(
    plan: PlanView,
    source: Seq<Seq<char>>,
    target: Seq<Seq<char>>,
    at: ResolvingView,
    probe: ProbeView,
    names: Seq<Seq<char>>,
    t: Seq<char>,
)
    ensures
        workspace::resolve_step(at, probe) == Err::<ResolvingView, workspace::Resolved>(Ok(names))
            ==> after_source(plan, at, probe) == with_source(plan, names) && after_target(
            plan,
            source,
            at,
            probe,
        ) == with_target(plan, source, names) && after_root(plan, source, target, at, probe)
            == BuildView::Ready(
            RequestView {
                source,
                target_dir: target,
                skip_zk: plan.skip_zk,
                no_communications_commitment: plan.no_communications_commitment,
                source_root: Some(path::render(names)),
            },
        ),
        workspace::resolve_step(at, probe) == Err::<ResolvingView, workspace::Resolved>(Err(t))
            ==> after_source(plan, at, probe) == BuildView::Refused(ErrorView::PathEscape(t))
            && after_target(plan, source, at, probe) == BuildView::Refused(ErrorView::PathEscape(t))
            && after_root(plan, source, target, at, probe) == BuildView::Refused(
            ErrorView::PathEscape(t),
        ),
        workspace::resolve_step(at, probe) matches Ok(next) ==> after_source(plan, at, probe) == (
        BuildView::Source { plan, at: next }) && after_target(plan, source, at, probe) == (
        BuildView::Target { plan, source, at: next }) && after_root(
            plan,
            source,
            target,
            at,
            probe,
        ) == (BuildView::Root { plan, source, target, at: next }),
{
}

/// The target directory is resolved once the source was let through, unless its place is known; the
/// source root is resolved where one is asked for, and otherwise the compile is ready.
pub proof fn law_the_target_and_the_root_follow(
    plan: PlanView,
    source: Seq<Seq<char>>,
    target: Seq<Seq<char>>,
    visited: Seq<Seq<Seq<char>>>,
    e: ErrorView,
)
    ensures
        after_scan(plan, source, StepView::Done { visited, verdict: Err(e) })
            == BuildView::Refused(e),
        plan.target matches TargetView::Given(p) ==> after_scan(
            plan,
            source,
            StepView::Done { visited, verdict: Ok(()) },
        ) == (BuildView::Target { plan, source, at: workspace::start_resolving(plan.root, p) }),
        plan.target matches TargetView::At(place) ==> after_scan(
            plan,
            source,
            StepView::Done { visited, verdict: Ok(()) },
        ) == with_target(plan, source, place),
        plan.source_root matches Some(p) ==> with_target(plan, source, target) == (BuildView::Root {
            plan,
            source,
            target,
            at: workspace::start_resolving(plan.root, p),
        }),
        plan.source_root is None ==> with_target(plan, source, target) == BuildView::Ready(
            RequestView {
                source,
                target_dir: target,
                skip_zk: plan.skip_zk,
                no_communications_commitment: plan.no_communications_commitment,
                source_root: None,
            },
        ),
{
}

/// Whether a step still holds the plan, or, where the compile is ready, its flags.
spec fn keeps(plan: PlanView, step: BuildView) -> bool {
    match step {
        BuildView::Source { plan: p, .. } => p == plan,
        BuildView::Copy { plan: p, .. } => p == plan,
        BuildView::Scan { plan: p, .. } => p == plan,
        BuildView::Target { plan: p, .. } => p == plan,
        BuildView::Root { plan: p, .. } => p == plan && plan.source_root is Some,
        BuildView::Ready(req) => {
            &&& req.skip_zk == plan.skip_zk
            &&& req.no_communications_commitment == plan.no_communications_commitment
            &&& req.source_root is Some <==> plan.source_root is Some
        },
        BuildView::Refused(_) => true,
    }
}

/// Whatever the file system answers, what the compiler is told in the end is what the request
/// asked for: its flags, and a source root exactly where one was asked for.
pub proof fn law_the_compiler_is_told_what_was_asked(
    root: Seq<Seq<char>>,
    args: CompileArgs,
    source_text: Seq<char>,
    id: Seq<char>,
    steps: Seq<BuildView>,
    files: Files,
    i: int,
)
    requires
        walk(root, start_compile(root, args, source_text, id), steps, files),
        0 <= i < steps.len(),
    ensures
        steps[i] matches BuildView::Ready(req) ==> {
            &&& req.skip_zk == args.skip_zk
            &&& req.no_communications_commitment == args.no_communications_commitment
            &&& req.source_root is Some <==> args.source_root is Some
        },
{
    let plan = compile_plan(root, args, source_text);
    lemma_keeps(root, plan, start_compile(root, args, source_text, id), steps, files, i);
}

proof fn lemma_keeps(
    root: Seq<Seq<char>>,
    plan: PlanView,
    first: BuildView,
    steps: Seq<BuildView>,
    files: Files,
    i: int,
)
    requires
        walk(root, first, steps, files),
        keeps(plan, first),
        0 <= i < steps.len(),
    ensures
        keeps(plan, steps[i]),
    decreases i,
{
    if i > 0 {
        lemma_keeps(root, plan, first, steps, files, i - 1);
        assert(follows(steps[i - 1], steps[i], files));
    }
}

/// A step of the preparation asks for what it needs next, is ready with the request, or is refused
/// with the error.
pub proof fn law_preparation_steps_are_what_is_needed(r: BuildStep, v: BuildView)
    requires
        step_is(r, v),
    ensures
        r matches BuildStep::Source(s) ==> v == (BuildView::Source { plan: s.plan(), at: s.at() }),
        r matches BuildStep::Copy(s) ==> v == (BuildView::Copy { plan: s.plan(), dir: s.place() }),
        r matches BuildStep::Scan(s) ==> (v matches BuildView::Scan { plan, source, step } && plan
            == s.plan() && source == s.source() && import_scan::step_is(s.scan(), step)),
        r matches BuildStep::Target(s) ==> v == (BuildView::Target {
            plan: s.plan(),
            source: s.source(),
            at: s.at(),
        }),
        r matches BuildStep::Root(s) ==> v == (BuildView::Root {
            plan: s.plan(),
            source: s.source(),
            target: s.target(),
            at: s.at(),
        }),
        r matches BuildStep::Ready(req) ==> v == BuildView::Ready(req@),
        r matches BuildStep::Refused(e) ==> v == BuildView::Refused(e@),
{
}

} // verus!
