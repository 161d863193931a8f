//! Formatting and fixing up sources.
//!
//! `compact format` and `compact fixup` rewrite files in place, and both exit with 1 for a
//! file they would change as well as for one they cannot parse. So the source is parsed here
//! first, and where the file is not to be written, a copy of it is rewritten.
//!
//! A rewrite is a walk: each stage names what it needs to be done outside and is told what
//! came of it.

use vstd::prelude::*;

use crate::analyze;
use crate::analyze::MAX_SOURCE_BYTES;
use crate::diagnostic;
use crate::diagnostic::{Diagnostic, DiagnosticView};
use crate::error::{CoreError, ErrorView, IoError, IoKind};
use crate::path;
use crate::path::AbsPath;
use crate::text;
use crate::text::{decimal, same_text};
use crate::workspace;
use crate::workspace::{
    BeltCheck, Entry, EntryView, FileWrite, Probe, ProbeView, ResolveStep, Resolving,
    ResolvingView, RevalidateStep, SwapCheck, SwapNext, Workspace,
};

use super::{joined_output, Command, Output, OutputView, Toolchain, ToolchainView};

verus! {

broadcast use vstd::string::group_string_axioms;

/// What to rewrite.
#[derive(Debug)]
pub enum FmtInput {
    Path(String),
    Source(String),
}

/// What an [`FmtInput`] says.
pub enum InputView {
    Path(Seq<char>),
    Source(Seq<char>),
}

impl View for FmtInput {
    type V = InputView;

    open spec fn view(&self) -> InputView {
        match self {
            FmtInput::Path(p) => InputView::Path(p@),
            FmtInput::Source(s) => InputView::Source(s@),
        }
    }
}

/// What a rewrite came to.
#[derive(Debug)]
pub struct FormatOutcome {
    pub ok: bool,
    pub changed: bool,
    /// The new text, where the file is not to be written.
    pub formatted: Option<String>,
    pub diagnostics: Vec<Diagnostic>,
}

/// What a [`FormatOutcome`] says.
pub struct OutcomeView {
    pub ok: bool,
    pub changed: bool,
    pub formatted: Option<Seq<char>>,
    pub diagnostics: Seq<DiagnosticView>,
}

impl View for FormatOutcome {
    type V = OutcomeView;

    open spec fn view(&self) -> OutcomeView {
        OutcomeView {
            ok: self.ok,
            changed: self.changed,
            formatted: text::opt_view(self.formatted),
            diagnostics: diagnostic::diagnostic_views(self.diagnostics@),
        }
    }
}

impl FormatOutcome {
    fn parse_failure(diagnostics: Vec<Diagnostic>) -> (r: FormatOutcome)
        ensures
            r@ == unparsed(diagnostic::diagnostic_views(diagnostics@)),
    {
        FormatOutcome { ok: false, changed: false, formatted: None, diagnostics }
    }
}

/// The outcome for a source that does not parse.
pub open spec fn unparsed(diagnostics: Seq<DiagnosticView>) -> OutcomeView {
    OutcomeView { ok: false, changed: false, formatted: None, diagnostics }
}

/// The outcome of a rewrite from `before` to `after`.
pub open spec fn rewritten(write: bool, before: Seq<char>, after: Seq<char>) -> OutcomeView {
    OutcomeView {
        ok: true,
        changed: after != before,
        formatted: if write {
            None
        } else {
            Some(after)
        },
        diagnostics: seq![],
    }
}

// ---------------------------------------------------------------------------
// The stages
// ---------------------------------------------------------------------------

/// What every stage of a rewrite knows.
pub struct JobView {
    pub tc: ToolchainView,
    pub root: Seq<Seq<char>>,
    /// `format` or `fixup`.
    pub subcommand: Seq<char>,
    pub write: bool,
    /// What diagnostics call the source.
    pub label: Seq<char>,
}

/// A stage of a rewrite: what it waits for.
pub enum StageView {
    /// What the file system says of a path that is being resolved.
    Resolve(JobView, ResolvingView),
    /// The size of the file.
    Size(JobView, Seq<Seq<char>>),
    /// The text of the file.
    Read(JobView, Seq<Seq<char>>),
    /// The entry at the first names of the file's path, before it is written.
    Entry { job: JobView, target: Seq<Seq<char>>, kept: int, before: Seq<char> },
    /// The place of the first names of the file's path, before it is written.
    Place { job: JobView, target: Seq<Seq<char>>, kept: int, before: Seq<char> },
    /// That a directory was made and a copy written into it.
    Copy { job: JobView, dir: Seq<char>, file: Seq<char>, before: Seq<char> },
    /// The end of the subprocess that rewrites a file.
    Run { job: JobView, file: Seq<char>, before: Seq<char> },
    /// The text of the file after that.
    ReadBack { job: JobView, file: Seq<char>, before: Seq<char> },
    Done(Result<OutcomeView, ErrorView>),
}

/// The refusal of a source that is larger than the limit.
pub open spec fn oversized() -> ErrorView {
    ErrorView::InvalidArgs(
        "input exceeds maximum size ("@ + text::dec(MAX_SOURCE_BYTES as nat) + " bytes)"@,
    )
}

/// The refusal to write what is no file.
pub open spec fn unwritable() -> ErrorView {
    ErrorView::InvalidArgs("`write: true` requires `path`, not `source`"@)
}

/// The stage after the source `before` was read, from the file `target` where it is one. A
/// source that does not parse ends the rewrite; `id` tells the scratch directory from others.
pub open spec fn gated(
    job: JobView,
    target: Option<Seq<Seq<char>>>,
    before: Seq<char>,
    id: Seq<char>,
) -> StageView {
    let outcome = analyze::source_outcome(before, job.label, None);
    if !outcome.success {
        StageView::Done(Ok(unparsed(outcome.diagnostics)))
    } else if job.write {
        match target {
            Some(t) => StageView::Entry { job, target: t, kept: t.len() as int, before },
            None => StageView::Done(Err(unwritable())),
        }
    } else {
        let dir = workspace::scope_dir(job.root, job.subcommand, id);
        StageView::Copy { job, dir, file: path::join_text(dir, "input.compact"@), before }
    }
}

/// The first stage of a rewrite.
pub open spec fn first_stage(job: JobView, input: InputView, id: Seq<char>) -> StageView {
    match input {
        InputView::Path(p) => StageView::Resolve(
            JobView { label: p, ..job },
            workspace::start_resolving(job.root, p),
        ),
        InputView::Source(s) => if job.write {
            StageView::Done(Err(unwritable()))
        } else if text::byte_len(s) > MAX_SOURCE_BYTES {
            StageView::Done(Err(oversized()))
        } else {
            gated(JobView { label: "<source>"@, ..job }, None, s, id)
        },
    }
}

/// The stage after one look at the file system while the path is resolved.
pub open spec fn after_probe(job: JobView, at: ResolvingView, probe: ProbeView) -> StageView {
    match workspace::resolve_step(at, probe) {
        Ok(next) => StageView::Resolve(job, next),
        Err(v) => match workspace::reported(v) {
            Ok(target) => StageView::Size(job, target),
            Err(e) => StageView::Done(Err(e)),
        },
    }
}

/// The stage after the file's size is known.
pub open spec fn after_size(
    job: JobView,
    target: Seq<Seq<char>>,
    size: Result<u64, (IoKind, Seq<char>)>,
) -> StageView {
    match size {
        Ok(n) => if n > MAX_SOURCE_BYTES {
            StageView::Done(Err(oversized()))
        } else {
            StageView::Read(job, target)
        },
        Err((kind, message)) => StageView::Done(Err(ErrorView::Io(kind, message))),
    }
}

/// The stage after the file was read.
pub open spec fn after_read(
    job: JobView,
    target: Seq<Seq<char>>,
    contents: Result<Seq<char>, (IoKind, Seq<char>)>,
    id: Seq<char>,
) -> StageView {
    match contents {
        Ok(before) => gated(job, Some(target), before, id),
        Err((kind, message)) => StageView::Done(Err(ErrorView::Io(kind, message))),
    }
}

/// The stage after one look at an entry of the file's path.
pub open spec fn after_entry(
    job: JobView,
    target: Seq<Seq<char>>,
    kept: int,
    before: Seq<char>,
    entry: EntryView,
) -> StageView {
    match workspace::swap_step(target, kept, entry) {
        SwapNext::Up => StageView::Entry { job, target, kept: kept - 1, before },
        SwapNext::Passed => StageView::Place { job, target, kept: target.len() as int, before },
        SwapNext::Refused(e) => StageView::Done(Err(e)),
    }
}

/// The stage after one look at a place on the file's path.
pub open spec fn after_place(
    job: JobView,
    target: Seq<Seq<char>>,
    kept: int,
    before: Seq<char>,
    place: Option<Seq<char>>,
) -> StageView {
    match workspace::belt_step(job.root, target, kept, place) {
        None => StageView::Place { job, target, kept: kept - 1, before },
        Some(Ok(())) => StageView::Run { job, file: path::render(target), before },
        Some(Err(e)) => StageView::Done(Err(e)),
    }
}

/// The stage after the copy was made.
pub open spec fn after_copy(
    job: JobView,
    file: Seq<char>,
    before: Seq<char>,
    made: Result<(), (IoKind, Seq<char>)>,
) -> StageView {
    match made {
        Ok(()) => StageView::Run { job, file, before },
        Err((kind, message)) => StageView::Done(Err(ErrorView::Io(kind, message))),
    }
}

/// The failure of the subprocess: both its streams are reported.
pub open spec fn run_failure(job: JobView, file: Seq<char>, out: OutputView) -> ErrorView {
    ErrorView::ToolchainFailed {
        cmd: job.tc.bin + " "@ + job.subcommand + " "@ + file,
        code: out.status,
        stderr: super::streams_joined(out),
    }
}

/// The stage after the subprocess ended.
pub open spec fn after_run(
    job: JobView,
    file: Seq<char>,
    before: Seq<char>,
    ended: Result<OutputView, ErrorView>,
) -> StageView {
    match ended {
        Err(e) => StageView::Done(Err(e)),
        Ok(out) => if out.status != 0 {
            StageView::Done(Err(run_failure(job, file, out)))
        } else {
            StageView::ReadBack { job, file, before }
        },
    }
}

/// The end of a rewrite.
pub open spec fn after_read_back(
    job: JobView,
    before: Seq<char>,
    contents: Result<Seq<char>, (IoKind, Seq<char>)>,
) -> StageView {
    match contents {
        Ok(after) => StageView::Done(Ok(rewritten(job.write, before, after))),
        Err((kind, message)) => StageView::Done(Err(ErrorView::Io(kind, message))),
    }
}

// ---------------------------------------------------------------------------
// The walk
// ---------------------------------------------------------------------------

#[derive(Debug)]
struct Job {
    tc: Toolchain,
    ws: Workspace,
    subcommand: String,
    write: bool,
    label: String,
}

spec fn job_view(job: Job) -> JobView {
    JobView {
        tc: job.tc@,
        root: job.ws@,
        subcommand: job.subcommand@,
        write: job.write,
        label: job.label@,
    }
}

/// The path of the file is being resolved.
#[derive(Debug)]
pub struct RewriteResolve {
    job: Job,
    at: Resolving,
}

/// The size of the file is wanted.
#[derive(Debug)]
pub struct RewriteSize {
    job: Job,
    target: AbsPath,
}

/// The text of the file is wanted.
#[derive(Debug)]
pub struct RewriteRead {
    job: Job,
    target: AbsPath,
}

/// The file's path is re-checked for symbolic links.
#[derive(Debug)]
pub struct RewriteEntry {
    job: Job,
    check: SwapCheck,
    before: String,
}

/// The file's path is re-checked for its place.
#[derive(Debug)]
pub struct RewritePlace {
    job: Job,
    check: BeltCheck,
    before: String,
}

/// A copy of the source is to be made.
#[derive(Debug)]
pub struct RewriteCopy {
    job: Job,
    dir: String,
    file: FileWrite,
}

/// A file is to be rewritten.
#[derive(Debug)]
pub struct RewriteRun {
    job: Job,
    file: String,
    before: String,
}

/// The text of the rewritten file is wanted.
#[derive(Debug)]
pub struct RewriteReadBack {
    job: Job,
    file: String,
    before: String,
}

/// A stage of a rewrite.
#[derive(Debug)]
pub enum RewriteStep {
    Resolve(RewriteResolve),
    Size(RewriteSize),
    Read(RewriteRead),
    Entry(RewriteEntry),
    Place(RewritePlace),
    Copy(RewriteCopy),
    Run(RewriteRun),
    ReadBack(RewriteReadBack),
    Done(Result<FormatOutcome, CoreError>),
}

pub open spec fn outcome_view(r: Result<FormatOutcome, CoreError>) -> Result<
    OutcomeView,
    ErrorView,
> {
    match r {
        Ok(o) => Ok(o@),
        Err(e) => Err(e@),
    }
}

impl View for RewriteStep {
    type V = StageView;

    open spec fn view(&self) -> StageView {
        match self {
            RewriteStep::Resolve(s) => StageView::Resolve(s.job(), s.at()),
            RewriteStep::Size(s) => StageView::Size(s.job(), s.target()),
            RewriteStep::Read(s) => StageView::Read(s.job(), s.target()),
            RewriteStep::Entry(s) => StageView::Entry {
                job: s.job(),
                target: s.target(),
                kept: s.kept(),
                before: s.before(),
            },
            RewriteStep::Place(s) => StageView::Place {
                job: s.job(),
                target: s.target(),
                kept: s.kept(),
                before: s.before(),
            },
            RewriteStep::Copy(s) => StageView::Copy {
                job: s.job(),
                dir: s.scratch(),
                file: s.copied().path@,
                before: s.copied().contents@,
            },
            RewriteStep::Run(s) => StageView::Run {
                job: s.job(),
                file: s.target(),
                before: s.before(),
            },
            RewriteStep::ReadBack(s) => StageView::ReadBack {
                job: s.job(),
                file: s.target(),
                before: s.before(),
            },
            RewriteStep::Done(r) => StageView::Done(outcome_view(*r)),
        }
    }
}

spec fn names(target: Option<AbsPath>) -> Option<Seq<Seq<char>>> {
    match target {
        Some(t) => Some(t@),
        None => None,
    }
}

fn too_large() -> (r: CoreError)
    ensures
        r@ == oversized(),
{
    let mut m = "input exceeds maximum size (".to_owned();
    m.append(decimal(MAX_SOURCE_BYTES as u128).as_str());
    m.append(" bytes)");
    CoreError::InvalidArgs(m)
}

fn not_a_file() -> (r: CoreError)
    ensures
        r@ == unwritable(),
{
    CoreError::InvalidArgs("`write: true` requires `path`, not `source`".to_owned())
}

pub open spec fn io_view(e: IoError) -> (IoKind, Seq<char>) {
    (e.kind, e.message@)
}

impl Job {
    /// The stage after the source was read.
    fn gate(self, target: Option<AbsPath>, before: String) -> (r: RewriteStep)
        requires
            path::plain_name(self.subcommand@),
        ensures
            exists|id: Seq<char>|
                workspace::uuid_text(id) && r@ == #[trigger] gated(
                    job_view(self),
                    names(target),
                    before@,
                    id,
                ),
    {
        let id = workspace::new_uuid();
        let ghost id_text = id@;
        let ghost want = gated(job_view(self), names(target), before@, id_text);
        let outcome = analyze::diagnostics(before.as_str(), self.label.as_str(), None);
        if !outcome.success {
            let r = RewriteStep::Done(Ok(FormatOutcome::parse_failure(outcome.diagnostics)));
            assert(r@ == want);
            return r;
        }
        if self.write {
            let t = match target {
                Some(t) => t,
                None => {
                    let r = RewriteStep::Done(Err(not_a_file()));
                    assert(r@ == want);
                    return r;
                },
            };
            let check = self.ws.revalidate_before_write(&t);
            let r = RewriteStep::Entry(RewriteEntry { job: self, check, before });
            assert(r@ == want);
            return r;
        }
        proof {
            reveal_strlit("input.compact");
        }
        let scope = match self.ws.scope_for(self.subcommand.as_str(), id.as_str()) {
            Ok(scope) => scope,
            Err(e) => {
                return RewriteStep::Done(Err(e));
            },
        };
        let file = match scope.write_file("input.compact", before.as_str()) {
            Ok(file) => file,
            Err(e) => {
                return RewriteStep::Done(Err(e));
            },
        };
        let dir = scope.path().to_owned();
        let r = RewriteStep::Copy(RewriteCopy { job: self, dir, file });
        assert(r@ == want);
        r
    }
}

impl RewriteResolve {
    #[verifier::type_invariant]
    spec fn named(self) -> bool {
        path::plain_name(self.job.subcommand@)
    }

    pub closed spec fn job(&self) -> JobView {
        job_view(self.job)
    }

    pub closed spec fn at(&self) -> ResolvingView {
        self.at@
    }

    /// The path to look at.
    pub fn path(&self) -> (r: String)
        ensures
            r@ == workspace::probed_text(self.at()),
    {
        self.at.path()
    }

    /// The stage after what the file system says of [`RewriteResolve::path`].
    pub fn step(self, probe: Probe) -> (r: RewriteStep)
        ensures
            r@ == after_probe(self.job(), self.at(), probe@),
    {
        proof {
            use_type_invariant(&self);
        }
        let RewriteResolve { job, at } = self;
        match at.step(probe) {
            ResolveStep::Look(at) => RewriteStep::Resolve(RewriteResolve { job, at }),
            ResolveStep::Done(Ok(target)) => RewriteStep::Size(RewriteSize { job, target }),
            ResolveStep::Done(Err(e)) => RewriteStep::Done(Err(e)),
        }
    }
}

impl RewriteSize {
    #[verifier::type_invariant]
    spec fn named(self) -> bool {
        path::plain_name(self.job.subcommand@)
    }

    pub closed spec fn job(&self) -> JobView {
        job_view(self.job)
    }

    pub closed spec fn target(&self) -> Seq<Seq<char>> {
        self.target@
    }

    /// The file whose size is wanted.
    pub fn path(&self) -> (r: String)
        ensures
            r@ == path::render(self.target()),
    {
        self.target.text()
    }

    /// The stage after the size of [`RewriteSize::path`] is known.
    pub fn step(self, size: Result<u64, IoError>) -> (r: RewriteStep)
        ensures
            r@ == after_size(
                self.job(),
                self.target(),
                match size {
                    Ok(n) => Ok(n),
                    Err(e) => Err(io_view(e)),
                },
            ),
    {
        proof {
            use_type_invariant(&self);
        }
        match size {
            Ok(n) => {
                if n > MAX_SOURCE_BYTES as u64 {
                    return RewriteStep::Done(Err(too_large()));
                }
                let RewriteSize { job, target } = self;
                RewriteStep::Read(RewriteRead { job, target })
            },
            Err(e) => RewriteStep::Done(Err(CoreError::Io(e))),
        }
    }
}

impl RewriteRead {
    #[verifier::type_invariant]
    spec fn named(self) -> bool {
        path::plain_name(self.job.subcommand@)
    }

    pub closed spec fn job(&self) -> JobView {
        job_view(self.job)
    }

    pub closed spec fn target(&self) -> Seq<Seq<char>> {
        self.target@
    }

    /// The file whose text is wanted.
    pub fn path(&self) -> (r: String)
        ensures
            r@ == path::render(self.target()),
    {
        self.target.text()
    }

    /// The stage after [`RewriteRead::path`] was read.
    pub fn step(self, contents: Result<String, IoError>) -> (r: RewriteStep)
        ensures
            exists|id: Seq<char>|
                workspace::uuid_text(id) && r@ == #[trigger] after_read(
                    self.job(),
                    self.target(),
                    contents_view(contents),
                    id,
                ),
    {
        proof {
            use_type_invariant(&self);
        }
        let ghost job_v = self.job();
        let ghost target_v = self.target();
        let ghost read = contents_view(contents);
        let RewriteRead { job, target } = self;
        match contents {
            Ok(before) => {
                let ghost text_v = before@;
                let r = job.gate(Some(target), before);
                proof {
                    let id = choose|id: Seq<char>|
                        workspace::uuid_text(id) && r@ == #[trigger] gated(
                            job_v,
                            Some(target_v),
                            text_v,
                            id,
                        );
                    assert(r@ == after_read(job_v, target_v, read, id));
                }
                r
            },
            Err(e) => {
                let id = workspace::new_uuid();
                let r = RewriteStep::Done(Err(CoreError::Io(e)));
                assert(r@ == after_read(job_v, target_v, read, id@));
                r
            },
        }
    }
}

pub open spec fn contents_view(r: Result<String, IoError>) -> Result<
    Seq<char>,
    (IoKind, Seq<char>),
> {
    match r {
        Ok(s) => Ok(s@),
        Err(e) => Err(io_view(e)),
    }
}

impl RewriteEntry {
    #[verifier::type_invariant]
    spec fn rooted(self) -> bool {
        self.check.root() == Some(self.job.ws@)
    }

    pub closed spec fn job(&self) -> JobView {
        job_view(self.job)
    }

    pub closed spec fn target(&self) -> Seq<Seq<char>> {
        self.check.vetted()
    }

    pub closed spec fn kept(&self) -> int {
        self.check.kept()
    }

    pub closed spec fn before(&self) -> Seq<char> {
        self.before@
    }

    /// The path to look at.
    pub fn path(&self) -> (r: String)
        ensures
            r@ == path::render(self.target().take(self.kept())),
    {
        self.check.path()
    }

    /// The stage after the entry at [`RewriteEntry::path`] is known.
    pub fn step(self, entry: Entry) -> (r: RewriteStep)
        ensures
            r@ == after_entry(self.job(), self.target(), self.kept(), self.before(), entry@),
    {
        proof {
            use_type_invariant(&self);
        }
        let RewriteEntry { job, check, before } = self;
        match check.step(entry) {
            RevalidateStep::Entry(check) => RewriteStep::Entry(RewriteEntry { job, check, before }),
            RevalidateStep::Place(check) => RewriteStep::Place(RewritePlace { job, check, before }),
            RevalidateStep::Done(Err(e)) => RewriteStep::Done(Err(e)),
            RevalidateStep::Done(Ok(())) => RewriteStep::Done(Err(not_a_file())),
        }
    }
}

impl RewritePlace {
    #[verifier::type_invariant]
    spec fn rooted(self) -> bool {
        self.check.root() == self.job.ws@
    }

    pub closed spec fn job(&self) -> JobView {
        job_view(self.job)
    }

    pub closed spec fn target(&self) -> Seq<Seq<char>> {
        self.check.vetted()
    }

    pub closed spec fn kept(&self) -> int {
        self.check.kept()
    }

    pub closed spec fn before(&self) -> Seq<char> {
        self.before@
    }

    /// The path to look at.
    pub fn path(&self) -> (r: String)
        ensures
            r@ == path::render(self.target().take(self.kept())),
    {
        self.check.path()
    }

    /// The stage after the canonical place of [`RewritePlace::path`] is known, absent where it
    /// has none.
    pub fn step(self, place: Option<String>) -> (r: RewriteStep)
        ensures
            r@ == after_place(
                self.job(),
                self.target(),
                self.kept(),
                self.before(),
                text::opt_view(place),
            ),
    {
        proof {
            use_type_invariant(&self);
        }
        let RewritePlace { job, check, before } = self;
        let file = check.target();
        match check.step(place) {
            RevalidateStep::Place(check) => RewriteStep::Place(RewritePlace { job, check, before }),
            RevalidateStep::Done(Ok(())) => RewriteStep::Run(RewriteRun { job, file, before }),
            RevalidateStep::Done(Err(e)) => RewriteStep::Done(Err(e)),
            RevalidateStep::Entry(_) => RewriteStep::Done(Err(not_a_file())),
        }
    }
}

impl RewriteCopy {
    pub closed spec fn job(&self) -> JobView {
        job_view(self.job)
    }

    pub closed spec fn scratch(&self) -> Seq<char> {
        self.dir@
    }

    pub closed spec fn copied(&self) -> FileWrite {
        self.file
    }

    /// The directory to make, with those above it.
    pub fn dir(&self) -> (r: &str)
        ensures
            r@ == self.scratch(),
    {
        self.dir.as_str()
    }

    /// The file to write into it.
    pub fn file(&self) -> (r: &FileWrite)
        ensures
            *r == self.copied(),
    {
        &self.file
    }

    /// The stage after the directory was made and the copy written.
    pub fn step(self, made: Result<(), IoError>) -> (r: RewriteStep)
        ensures
            r@ == after_copy(
                self.job(),
                self.copied().path@,
                self.copied().contents@,
                match made {
                    Ok(()) => Ok(()),
                    Err(e) => Err(io_view(e)),
                },
            ),
    {
        match made {
            Ok(()) => {
                let RewriteCopy { job, dir: _, file } = self;
                let FileWrite { path, contents } = file;
                RewriteStep::Run(RewriteRun { job, file: path, before: contents })
            },
            Err(e) => RewriteStep::Done(Err(CoreError::Io(e))),
        }
    }
}

impl RewriteRun {
    pub closed spec fn job(&self) -> JobView {
        job_view(self.job)
    }

    pub closed spec fn target(&self) -> Seq<char> {
        self.file@
    }

    pub closed spec fn before(&self) -> Seq<char> {
        self.before@
    }

    /// The subprocess to run; none is run where the caller was told to stop.
    pub fn command(&self, cancelled: bool) -> (r: Result<Command, CoreError>)
        ensures
            super::command_view(r) == super::unless_cancelled(
                self.job().tc,
                seq![self.job().subcommand, self.target()],
                cancelled,
            ),
    {
        let mut args: Vec<String> = Vec::new();
        args.push(self.job.subcommand.as_str().to_owned());
        args.push(self.file.as_str().to_owned());
        assert(text::views(args@) =~= seq![self.job.subcommand@, self.file@]);
        self.job.tc.run(&args, cancelled)
    }

    /// The failure that a subprocess with this output is.
    fn toolchain_failed(&self, out: Output) -> (r: CoreError)
        ensures
            r@ == run_failure(self.job(), self.target(), out@),
    {
        let stderr = joined_output(&out);
        let mut cmd = self.job.tc.bin().to_owned();
        cmd.append(" ");
        cmd.append(self.job.subcommand.as_str());
        cmd.append(" ");
        cmd.append(self.file.as_str());
        CoreError::ToolchainFailed { cmd, code: out.status, stderr }
    }

    /// The stage after the subprocess ended.
    pub fn step(self, ended: Result<Output, CoreError>) -> (r: RewriteStep)
        ensures
            r@ == after_run(
                self.job(),
                self.target(),
                self.before(),
                super::output_view(ended),
            ),
    {
        let out = match ended {
            Ok(out) => out,
            Err(e) => {
                return RewriteStep::Done(Err(e));
            },
        };
        if out.status != 0 {
            return RewriteStep::Done(Err(self.toolchain_failed(out)));
        }
        let RewriteRun { job, file, before } = self;
        RewriteStep::ReadBack(RewriteReadBack { job, file, before })
    }
}

impl RewriteReadBack {
    pub closed spec fn job(&self) -> JobView {
        job_view(self.job)
    }

    pub closed spec fn target(&self) -> Seq<char> {
        self.file@
    }

    pub closed spec fn before(&self) -> Seq<char> {
        self.before@
    }

    /// The file whose text is wanted.
    pub fn path(&self) -> (r: &str)
        ensures
            r@ == self.target(),
    {
        self.file.as_str()
    }

    /// The end of the rewrite, once [`RewriteReadBack::path`] was read.
    pub fn step(self, contents: Result<String, IoError>) -> (r: Result<FormatOutcome, CoreError>)
        ensures
            StageView::Done(outcome_view(r)) == after_read_back(
                self.job(),
                self.before(),
                contents_view(contents),
            ),
    {
        match contents {
            Ok(after) => {
                let changed = !same_text(after.as_str(), self.before.as_str());
                let diagnostics: Vec<Diagnostic> = Vec::new();
                assert(diagnostic::diagnostic_views(diagnostics@) =~= Seq::<
                    DiagnosticView,
                >::empty());
                let formatted = if self.job.write {
                    None
                } else {
                    Some(after)
                };
                Ok(FormatOutcome { ok: true, changed, formatted, diagnostics })
            },
            Err(e) => Err(CoreError::Io(e)),
        }
    }
}

/// What a toolchain in a workspace rewrites with `subcommand`.
pub open spec fn job_for(
    tc: ToolchainView,
    root: Seq<Seq<char>>,
    subcommand: Seq<char>,
    write: bool,
) -> JobView {
    JobView { tc, root, subcommand, write, label: seq![] }
}

impl Toolchain {
    /// Starts to format a file or a source. The file is changed only where `write` says so.
    pub fn format(&self, ws: &Workspace, input: FmtInput, write: bool) -> (r: RewriteStep)
        ensures
            exists|id: Seq<char>|
                workspace::uuid_text(id) && r@ == #[trigger] first_stage(
                    job_for(self@, ws@, "format"@, write),
                    input@,
                    id,
                ),
    {
        proof {
            reveal_strlit("format");
        }
        self.rewrite(ws, input, write, "format")
    }

    /// Starts to fix up a file. The file is changed only where `write` says so.
    pub fn fixup(&self, ws: &Workspace, path: &str, write: bool) -> (r: RewriteStep)
        ensures
            exists|id: Seq<char>|
                workspace::uuid_text(id) && r@ == #[trigger] first_stage(
                    job_for(self@, ws@, "fixup"@, write),
                    InputView::Path(path@),
                    id,
                ),
    {
        proof {
            reveal_strlit("fixup");
        }
        self.rewrite(ws, FmtInput::Path(path.to_owned()), write, "fixup")
    }

    fn rewrite(&self, ws: &Workspace, input: FmtInput, write: bool, subcommand: &str) -> (r:
        RewriteStep)
        requires
            path::plain_name(subcommand@),
        ensures
            exists|id: Seq<char>|
                workspace::uuid_text(id) && r@ == #[trigger] first_stage(
                    job_for(self@, ws@, subcommand@, write),
                    input@,
                    id,
                ),
    {
        let ghost plain = job_for(self@, ws@, subcommand@, write);
        let ghost given = input@;
        match input {
            FmtInput::Path(p) => {
                let id = workspace::new_uuid();
                let at = ws.resolve(p.as_str());
                let job = Job {
                    tc: self.duplicate(),
                    ws: ws.duplicate(),
                    subcommand: subcommand.to_owned(),
                    write,
                    label: p,
                };
                let r = RewriteStep::Resolve(RewriteResolve { job, at });
                assert(r@ == first_stage(plain, given, id@));
                r
            },
            FmtInput::Source(s) => {
                if write {
                    let id = workspace::new_uuid();
                    let r = RewriteStep::Done(Err(not_a_file()));
                    assert(r@ == first_stage(plain, given, id@));
                    return r;
                }
                if s.as_str().len() > MAX_SOURCE_BYTES {
                    let id = workspace::new_uuid();
                    let r = RewriteStep::Done(Err(too_large()));
                    assert(r@ == first_stage(plain, given, id@));
                    return r;
                }
                let job = Job {
                    tc: self.duplicate(),
                    ws: ws.duplicate(),
                    subcommand: subcommand.to_owned(),
                    write,
                    label: "<source>".to_owned(),
                };
                let ghost job_v = job_view(job);
                let ghost text_v = s@;
                let r = job.gate(None, s);
                proof {
                    let id = choose|id: Seq<char>|
                        workspace::uuid_text(id) && r@ == #[trigger] gated(
                            job_v,
                            None,
                            text_v,
                            id,
                        );
                    assert(r@ == first_stage(plain, given, id));
                }
                r
            },
        }
    }
}

// ---------------------------------------------------------------------------
// Laws
// ---------------------------------------------------------------------------

/// Whether `b` can come directly after `a`.
pub open spec fn follows(a: StageView, b: StageView) -> bool {
    match a {
        StageView::Resolve(job, at) => exists|probe: ProbeView| b == after_probe(job, at, probe),
        StageView::Size(job, target) => exists|size: Result<u64, (IoKind, Seq<char>)>|
            b == after_size(job, target, size),
        StageView::Read(job, target) => exists|
            contents: Result<Seq<char>, (IoKind, Seq<char>)>,
            id: Seq<char>,
        | b == after_read(job, target, contents, id),
        StageView::Entry { job, target, kept, before } => exists|entry: EntryView|
            b == after_entry(job, target, kept, before, entry),
        StageView::Place { job, target, kept, before } => exists|place: Option<Seq<char>>|
            b == after_place(job, target, kept, before, place),
        StageView::Copy { job, file, before, .. } => exists|
            made: Result<(), (IoKind, Seq<char>)>,
        | b == after_copy(job, file, before, made),
        StageView::Run { job, file, before } => exists|ended: Result<OutputView, ErrorView>|
            b == after_run(job, file, before, ended),
        StageView::ReadBack { job, before, .. } => exists|
            contents: Result<Seq<char>, (IoKind, Seq<char>)>,
        | b == after_read_back(job, before, contents),
        StageView::Done(_) => false,
    }
}

/// Whether these are the stages of a rewrite, from the first on.
pub open spec fn walk(job: JobView, input: InputView, stages: Seq<StageView>) -> bool {
    &&& stages.len() > 0
    &&& exists|id: Seq<char>| stages[0] == #[trigger] first_stage(job, input, id)
    &&& forall|i: int| 0 < i < stages.len() ==> follows(stages[i - 1], #[trigger] stages[i])
}

/// Whether a job is this one, whatever it calls the source.
spec fn same_job(a: JobView, b: JobView) -> bool {
    a.tc == b.tc && a.root == b.root && a.subcommand == b.subcommand && a.write == b.write
}

/// Whether a file is a copy in a scratch directory of the job.
pub open spec fn scratch_copy(job: JobView, file: Seq<char>) -> bool {
    exists|id: Seq<char>|
        file == path::join_text(
            #[trigger] workspace::scope_dir(job.root, job.subcommand, id),
            "input.compact"@,
        )
}

/// Whether the source `before` parses.
pub open spec fn parses(job: JobView, before: Seq<char>) -> bool {
    analyze::source_outcome(before, job.label, None).success
}

spec fn held(job: JobView, stage: StageView) -> bool {
    match stage {
        StageView::Resolve(j, _) => same_job(j, job),
        StageView::Size(j, _) => same_job(j, job),
        StageView::Read(j, _) => same_job(j, job),
        StageView::Entry { job: j, before, .. } => same_job(j, job) && job.write && parses(
            j,
            before,
        ),
        StageView::Place { job: j, before, .. } => same_job(j, job) && job.write && parses(
            j,
            before,
        ),
        StageView::Copy { job: j, file, before, .. } => same_job(j, job) && !job.write
            && scratch_copy(job, file) && parses(j, before),
        StageView::Run { job: j, file, before } => same_job(j, job) && (job.write || scratch_copy(
            job,
            file,
        )) && parses(j, before),
        StageView::ReadBack { job: j, file, before } => same_job(j, job) && (job.write
            || scratch_copy(job, file)) && parses(j, before),
        StageView::Done(_) => true,
    }
}

proof fn lemma_gated_held(
    job: JobView,
    j: JobView,
    target: Option<Seq<Seq<char>>>,
    before: Seq<char>,
    id: Seq<char>,
)
    requires
        same_job(j, job),
    ensures
        held(job, gated(j, target, before, id)),
{
    assert(workspace::scope_dir(job.root, job.subcommand, id) == workspace::scope_dir(
        j.root,
        j.subcommand,
        id,
    ));
}

proof fn lemma_held(job: JobView, a: StageView, b: StageView)
    requires
        held(job, a),
        follows(a, b),
    ensures
        held(job, b),
{
    match a {
        StageView::Read(j, target) => {
            let (contents, id) = choose|
                contents: Result<Seq<char>, (IoKind, Seq<char>)>,
                id: Seq<char>,
            | b == after_read(j, target, contents, id);
            match contents {
                Ok(before) => {
                    lemma_gated_held(job, j, Some(target), before, id);
                },
                Err(_) => {},
            }
        },
        _ => {},
    }
}

/// The formatter never answers a question of parsing: a file is rewritten only if its source
/// parses. Where the file is not to be written, what is rewritten is a copy in a scratch
/// directory of the workspace; where it is, it is rewritten only directly after it was found
/// to lie inside the root still.
pub proof fn law_rewrites_are_gated(
    job: JobView,
    input: InputView,
    stages: Seq<StageView>,
    i: int,
)
    requires
        walk(job, input, stages),
        0 <= i < stages.len(),
    ensures
        stages[i] matches StageView::Run { job: j, file, before } ==> {
            &&& parses(j, before)
            &&& !job.write ==> scratch_copy(job, file)
            &&& job.write ==> 0 < i && (stages[i - 1] matches StageView::Place { target, .. }
                && file == path::render(target))
        },
{
    lemma_walk_held(job, input, stages, i);
    if i > 0 {
        lemma_walk_held(job, input, stages, i - 1);
        assert(follows(stages[i - 1], stages[i]));
    }
}

proof fn lemma_walk_held(job: JobView, input: InputView, stages: Seq<StageView>, i: int)
    requires
        walk(job, input, stages),
        0 <= i < stages.len(),
    ensures
        held(job, stages[i]),
        i == 0 ==> !(stages[i] is Run),
    decreases i,
{
    if i == 0 {
        let id = choose|id: Seq<char>| stages[0] == #[trigger] first_stage(job, input, id);
        match input {
            InputView::Source(s) => {
                lemma_gated_held(job, JobView { label: "<source>"@, ..job }, None, s, id);
            },
            InputView::Path(_) => {},
        }
    } else {
        lemma_walk_held(job, input, stages, i - 1);
        assert(follows(stages[i - 1], stages[i]));
        lemma_held(job, stages[i - 1], stages[i]);
    }
}

/// A source that is no file cannot be written, whether it parses or not, and is refused
/// before anything is looked at.
pub proof fn law_inline_sources_are_never_written(job: JobView, source: Seq<char>, id: Seq<char>)
    requires
        job.write,
    ensures
        first_stage(job, InputView::Source(source), id) == StageView::Done(Err(unwritable())),
{
}

/// A source that does not parse is no failure: its diagnostics are the result, and nothing is
/// rewritten.
pub proof fn law_syntax_errors_are_diagnostics(
    job: JobView,
    target: Option<Seq<Seq<char>>>,
    before: Seq<char>,
    id: Seq<char>,
)
    requires
        !parses(job, before),
    ensures
        gated(job, target, before, id) matches StageView::Done(Ok(o)) && !o.ok && !o.changed
            && o.formatted is None && o.diagnostics == analyze::source_outcome(
            before,
            job.label,
            None,
        ).diagnostics,
{
}

/// A rewrite that leaves the text as it is reports no change; the new text is returned exactly
/// where the file was not to be written.
pub proof fn law_a_rewrite_reports_what_changed(
    job: JobView,
    before: Seq<char>,
    after: Seq<char>,
)
    ensures
        after_read_back(job, before, Ok(after)) matches StageView::Done(Ok(o)) && o.ok
            && (o.changed <==> after != before) && (o.formatted is None <==> job.write),
{
}

/// What a rewrite gives back is the text that the formatter left, character for character, whether
/// or not it differs from the text before; where the file itself was written, no text is given
/// back. A change is reported exactly where the two texts differ, and no diagnostics.
pub proof fn law_the_new_text_is_given_back(job: JobView, before: Seq<char>, after: Seq<char>)
    ensures
        after_read_back(job, before, Ok(after)) == StageView::Done(
            Ok(
                OutcomeView {
                    ok: true,
                    changed: !(before == after),
                    formatted: if job.write {
                        None
                    } else {
                        Some(after)
                    },
                    diagnostics: Seq::<DiagnosticView>::empty(),
                },
            ),
        ),
{
}

/// A source that is no file and that parses is copied as it is into a file of its own, that copy
/// is rewritten, and what the copy then holds is given back; the source itself is what the change
/// is told against.
pub proof fn law_a_source_is_rewritten_in_a_copy(
    job: JobView,
    source: Seq<char>,
    id: Seq<char>,
    out: OutputView,
    after: Seq<char>,
)
    requires
        !job.write,
        text::byte_len(source) <= 2_097_152,
        analyze::source_outcome(source, "<source>"@, None).success,
        out.status == 0,
    ensures
        ({
            let j = JobView { label: "<source>"@, ..job };
            let dir = workspace::scope_dir(job.root, job.subcommand, id);
            let file = path::join_text(dir, "input.compact"@);
            &&& first_stage(job, InputView::Source(source), id) == StageView::Copy {
                job: j,
                dir,
                file,
                before: source,
            }
            &&& after_copy(j, file, source, Ok(())) == StageView::Run {
                job: j,
                file,
                before: source,
            }
            &&& after_run(j, file, source, Ok(out)) == StageView::ReadBack {
                job: j,
                file,
                before: source,
            }
            &&& after_read_back(j, source, Ok(after)) matches StageView::Done(Ok(o))
                && o.formatted == Some(after) && o.ok && (o.changed <==> after != source)
        }),
{
}

/// A file that parses and is to be written is checked once more from its last name on, rewritten
/// under its own path and no other, and read again from there.
pub proof fn law_a_file_is_rewritten_in_place(
    job: JobView,
    target: Seq<Seq<char>>,
    before: Seq<char>,
    id: Seq<char>,
    kept: int,
    place: Option<Seq<char>>,
    out: OutputView,
    after: Seq<char>,
)
    requires
        job.write,
        analyze::source_outcome(before, job.label, None).success,
        workspace::belt_step(job.root, target, kept, place) == Some(Ok::<(), ErrorView>(())),
        out.status == 0,
    ensures
        ({
            let file = path::render(target);
            &&& after_read(job, target, Ok(before), id) == StageView::Entry {
                job,
                target,
                kept: target.len() as int,
                before,
            }
            &&& after_place(job, target, kept, before, place) == StageView::Run {
                job,
                file,
                before,
            }
            &&& after_run(job, file, before, Ok(out)) == StageView::ReadBack { job, file, before }
            &&& after_read_back(job, before, Ok(after)) matches StageView::Done(Ok(o))
                && o.formatted is None && o.ok && (o.changed <==> after != before)
        }),
{
}

/// Whatever goes wrong outside is passed on as it was told, and a formatter that fails is reported
/// with the command, the exit code and all it wrote. A file or source over the limit is refused by
/// its size, and one at the limit is not.
pub proof fn law_failures_are_passed_on(
    job: JobView,
    target: Seq<Seq<char>>,
    file: Seq<char>,
    before: Seq<char>,
    id: Seq<char>,
    kind: IoKind,
    message: Seq<char>,
    size: u64,
    e: ErrorView,
    out: OutputView,
)
    ensures
        ({
            let failed = StageView::Done(Err(ErrorView::Io(kind, message)));
            &&& after_size(job, target, Err((kind, message))) == failed
            &&& after_read(job, target, Err((kind, message)), id) == failed
            &&& after_copy(job, file, before, Err((kind, message))) == failed
            &&& after_read_back(job, before, Err((kind, message))) == failed
            &&& after_run(job, file, before, Err(e)) == StageView::Done(Err(e))
            &&& out.status != 0 ==> after_run(job, file, before, Ok(out)) == StageView::Done(
                Err(
                    ErrorView::ToolchainFailed {
                        cmd: job.tc.bin + " "@ + job.subcommand + " "@ + file,
                        code: out.status,
                        stderr: super::streams_joined(out),
                    },
                ),
            )
            &&& size <= 2_097_152 ==> after_size(job, target, Ok(size)) == StageView::Read(
                job,
                target,
            )
            &&& size > 2_097_152 ==> after_size(job, target, Ok(size)) == StageView::Done(
                Err(
                    ErrorView::InvalidArgs(
                        "input exceeds maximum size ("@ + text::dec(2_097_152) + " bytes)"@,
                    ),
                ),
            )
            &&& !job.write && text::byte_len(before) > 2_097_152 ==> first_stage(
                job,
                InputView::Source(before),
                id,
            ) == StageView::Done(
                Err(
                    ErrorView::InvalidArgs(
                        "input exceeds maximum size ("@ + text::dec(2_097_152) + " bytes)"@,
                    ),
                ),
            )
            &&& job.write ==> first_stage(job, InputView::Source(before), id) == StageView::Done(
                Err(
                    ErrorView::InvalidArgs("`write: true` requires `path`, not `source`"@),
                ),
            )
        }),
{
}

/// A file is known by the path that the request gave, and looked up from there; what diagnostics
/// call it never changes on the way.
pub proof fn law_a_file_goes_by_its_path(job: JobView, p: Seq<char>, id: Seq<char>)
    ensures
        first_stage(job, InputView::Path(p), id) == StageView::Resolve(
            JobView {
                tc: job.tc,
                root: job.root,
                subcommand: job.subcommand,
                write: job.write,
                label: p,
            },
            workspace::start_resolving(job.root, p),
        ),
{
}

/// What a rewrite is given and what it came to are seen as they are, and so is what was read.
pub proof fn law_rewrites_are_seen_as_they_are(
    p: String,
    o: FormatOutcome,
    e: CoreError,
    io: IoError,
)
    ensures
        FmtInput::Path(p)@ == InputView::Path(p@),
        FmtInput::Source(p)@ == InputView::Source(p@),
        o@.ok == o.ok,
        o@.changed == o.changed,
        o@.formatted == text::opt_view(o.formatted),
        o@.diagnostics == diagnostic::diagnostic_views(o.diagnostics@),
        outcome_view(Ok(o)) == Ok::<OutcomeView, ErrorView>(o@),
        outcome_view(Err(e)) == Err::<OutcomeView, ErrorView>(e@),
        contents_view(Ok(p)) == Ok::<Seq<char>, (IoKind, Seq<char>)>(p@),
        contents_view(Err(io)) == Err::<Seq<char>, (IoKind, Seq<char>)>((io.kind, io.message@)),
{
}

/// A step of a rewrite is seen as what it waits for.
pub proof fn law_rewrite_steps_are_seen_as_they_are(s: RewriteStep)
    ensures
        s matches RewriteStep::Resolve(r) ==> s@ == StageView::Resolve(r.job(), r.at()),
        s matches RewriteStep::Size(r) ==> s@ == StageView::Size(r.job(), r.target()),
        s matches RewriteStep::Read(r) ==> s@ == StageView::Read(r.job(), r.target()),
        s matches RewriteStep::Entry(r) ==> s@ == (StageView::Entry {
            job: r.job(),
            target: r.target(),
            kept: r.kept(),
            before: r.before(),
        }),
        s matches RewriteStep::Place(r) ==> s@ == (StageView::Place {
            job: r.job(),
            target: r.target(),
            kept: r.kept(),
            before: r.before(),
        }),
        s matches RewriteStep::Copy(r) ==> s@ == (StageView::Copy {
            job: r.job(),
            dir: r.scratch(),
            file: r.copied().path@,
            before: r.copied().contents@,
        }),
        s matches RewriteStep::Run(r) ==> s@ == (StageView::Run {
            job: r.job(),
            file: r.target(),
            before: r.before(),
        }),
        s matches RewriteStep::ReadBack(r) ==> s@ == (StageView::ReadBack {
            job: r.job(),
            file: r.target(),
            before: r.before(),
        }),
        s matches RewriteStep::Done(r) ==> s@ == StageView::Done(outcome_view(r)),
{
}

} // verus!
