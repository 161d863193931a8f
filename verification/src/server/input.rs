//! Reading the source that a request names.
//!
//! A request gives either the path of a file or the source itself. Reading a file is a walk:
//! each step names what it needs to know of the file system and is told.

use vstd::prelude::*;

use crate::analyze::MAX_SOURCE_BYTES;
use crate::error;
use crate::error::IoError;
use crate::path;
use crate::path::AbsPath;
use crate::text;
use crate::text::{decimal, quoted};
use crate::toolchain::fmt::{FmtInput, InputView};
use crate::workspace;
use crate::workspace::{Probe, ProbeView, ResolveStep, Resolving, ResolvingView, Workspace};

use super::{RpcError, RpcErrorKind, RpcErrorView};

verus! {

broadcast use vstd::string::group_string_axioms;

/// Exactly one of the two must be given.
#[derive(Debug)]
pub struct SourceInput {
    /// The path of a file, relative to the workspace root.
    pub path: Option<String>,
    /// The source itself.
    pub source: Option<String>,
}

/// What a [`SourceInput`] says.
pub struct SourceInputView {
    pub path: Option<Seq<char>>,
    pub source: Option<Seq<char>>,
}

impl View for SourceInput {
    type V = SourceInputView;

    open spec fn view(&self) -> SourceInputView {
        SourceInputView { path: text::opt_view(self.path), source: text::opt_view(self.source) }
    }
}

/// The refusal of a request that gives both or neither.
pub open spec fn not_exactly_one() -> RpcErrorView {
    super::invalid_params("supply exactly one of `path` or `source`"@)
}

/// The refusal of a path that names a directory.
pub open spec fn a_directory(p: Seq<char>) -> RpcErrorView {
    super::invalid_params("`path` must be a file, not a directory: "@ + text::debug_text(p))
}

/// The refusal of a source of `len` bytes.
pub open spec fn input_too_large(len: nat) -> RpcErrorView {
    super::invalid_params(
        "input too large: "@ + text::dec(len) + " bytes (max "@ + text::dec(MAX_SOURCE_BYTES as nat)
            + ")"@,
    )
}

/// A step of reading a source: what it waits for. `label` is the path as the request gave it.
pub enum ReadView {
    /// What the file system says of a path that is being resolved.
    Resolve { label: Seq<char>, at: ResolvingView },
    /// Whether the path is a directory.
    Kind { label: Seq<char>, file: Seq<Seq<char>> },
    /// The size of the file.
    Size { label: Seq<char>, file: Seq<Seq<char>> },
    /// The text of the file.
    Read { label: Seq<char>, file: Seq<Seq<char>> },
    /// The source, and what diagnostics call it.
    Done(Result<(Seq<char>, Seq<char>), RpcErrorView>),
}

/// The first step of reading the source of a request.
pub open spec fn start_reading(root: Seq<Seq<char>>, input: SourceInputView) -> ReadView {
    match (input.path, input.source) {
        (Some(p), None) => ReadView::Resolve { label: p, at: workspace::start_resolving(root, p) },
        (None, Some(s)) => if text::byte_len(s) > MAX_SOURCE_BYTES {
            ReadView::Done(Err(input_too_large(text::byte_len(s) as nat)))
        } else {
            ReadView::Done(Ok((s, "<inline>"@)))
        },
        _ => ReadView::Done(Err(not_exactly_one())),
    }
}

/// The step after one look at the file system while the path is resolved.
pub open spec fn after_probe(label: Seq<char>, at: ResolvingView, probe: ProbeView) -> ReadView {
    match workspace::resolve_step(at, probe) {
        Ok(next) => ReadView::Resolve { label, at: next },
        Err(v) => match workspace::reported(v) {
            Ok(file) => ReadView::Kind { label, file },
            Err(e) => ReadView::Done(Err(super::invalid_params(error::error_message(e)))),
        },
    }
}

/// The step after it is known whether the path is a directory.
pub open spec fn after_kind(label: Seq<char>, file: Seq<Seq<char>>, is_dir: bool) -> ReadView {
    if is_dir {
        ReadView::Done(Err(a_directory(label)))
    } else {
        ReadView::Size { label, file }
    }
}

/// The step after the size of the file is known. A file that is too large is not read.
pub open spec fn after_size(
    label: Seq<char>,
    file: Seq<Seq<char>>,
    size: Result<u64, Seq<char>>,
) -> ReadView {
    match size {
        Err(m) => ReadView::Done(Err(super::invalid_params(m))),
        Ok(n) => if n > MAX_SOURCE_BYTES {
            ReadView::Done(Err(input_too_large(n as nat)))
        } else {
            ReadView::Read { label, file }
        },
    }
}

/// The end, once the file was read.
pub open spec fn after_read(label: Seq<char>, contents: Result<Seq<char>, Seq<char>>) -> ReadView {
    match contents {
        Err(m) => ReadView::Done(Err(super::invalid_params(m))),
        Ok(s) => ReadView::Done(Ok((s, label))),
    }
}

/// A path is being resolved.
#[derive(Debug)]
pub struct InputResolve {
    label: String,
    at: Resolving,
}

/// Whether the path is a directory is wanted.
#[derive(Debug)]
pub struct InputKind {
    label: String,
    file: AbsPath,
}

/// The size of the file is wanted.
#[derive(Debug)]
pub struct InputSize {
    label: String,
    file: AbsPath,
}

/// The text of the file is wanted.
#[derive(Debug)]
pub struct InputRead {
    label: String,
    file: AbsPath,
}

/// A step of reading a source.
#[derive(Debug)]
pub enum ReadStep {
    Resolve(InputResolve),
    Kind(InputKind),
    Size(InputSize),
    Read(InputRead),
    /// The source, and what diagnostics call it.
    Done(Result<(String, String), RpcError>),
}

pub open spec fn read_result(r: Result<(String, String), RpcError>) -> Result<
    (Seq<char>, Seq<char>),
    RpcErrorView,
> {
    match r {
        Ok((s, label)) => Ok((s@, label@)),
        Err(e) => Err(e@),
    }
}

impl View for ReadStep {
    type V = ReadView;

    open spec fn view(&self) -> ReadView {
        match self {
            ReadStep::Resolve(s) => ReadView::Resolve { label: s.label(), at: s.at() },
            ReadStep::Kind(s) => ReadView::Kind { label: s.label(), file: s.file() },
            ReadStep::Size(s) => ReadView::Size { label: s.label(), file: s.file() },
            ReadStep::Read(s) => ReadView::Read { label: s.label(), file: s.file() },
            ReadStep::Done(r) => ReadView::Done(read_result(*r)),
        }
    }
}

fn refused(message: String) -> (r: RpcError)
    ensures
        r@ == super::invalid_params(message@),
{
    RpcError { kind: RpcErrorKind::InvalidParams, message }
}

fn too_large(len: u64) -> (r: RpcError)
    ensures
        r@ == input_too_large(len as nat),
{
    let mut m = "input too large: ".to_owned();
    m.append(decimal(len as u128).as_str());
    m.append(" bytes (max ");
    m.append(decimal(MAX_SOURCE_BYTES as u128).as_str());
    m.append(")");
    refused(m)
}

fn exactly_one() -> (r: RpcError)
    ensures
        r@ == not_exactly_one(),
{
    refused("supply exactly one of `path` or `source`".to_owned())
}

impl InputResolve {
    pub closed spec fn label(&self) -> Seq<char> {
        self.label@
    }

    pub closed spec fn at(&self) -> ResolvingView {
        self.at@
    }

    /// The path to look at.
    pub fn path(&self) -> (r: String)
        ensures
            r@ == workspace::probed_text(self.at()),
    {
        self.at.path()
    }

    /// The step after what the file system says of [`InputResolve::path`].
    pub fn step(self, probe: Probe) -> (r: ReadStep)
        ensures
            r@ == after_probe(self.label(), self.at(), probe@),
    {
        let InputResolve { label, at } = self;
        match at.step(probe) {
            ResolveStep::Look(at) => ReadStep::Resolve(InputResolve { label, at }),
            ResolveStep::Done(Ok(file)) => ReadStep::Kind(InputKind { label, file }),
            ResolveStep::Done(Err(e)) => ReadStep::Done(Err(refused(e.message()))),
        }
    }
}

impl InputKind {
    pub closed spec fn label(&self) -> Seq<char> {
        self.label@
    }

    pub closed spec fn file(&self) -> Seq<Seq<char>> {
        self.file@
    }

    /// The path to look at.
    pub fn path(&self) -> (r: String)
        ensures
            r@ == path::render(self.file()),
    {
        self.file.text()
    }

    /// The step after it is known whether [`InputKind::path`] is a directory.
    pub fn step(self, is_dir: bool) -> (r: ReadStep)
        ensures
            r@ == after_kind(self.label(), self.file(), is_dir),
    {
        let InputKind { label, file } = self;
        if is_dir {
            let mut m = "`path` must be a file, not a directory: ".to_owned();
            m.append(quoted(label.as_str()).as_str());
            return ReadStep::Done(Err(refused(m)));
        }
        ReadStep::Size(InputSize { label, file })
    }
}

impl InputSize {
    pub closed spec fn label(&self) -> Seq<char> {
        self.label@
    }

    pub closed spec fn file(&self) -> Seq<Seq<char>> {
        self.file@
    }

    /// The file whose size is wanted.
    pub fn path(&self) -> (r: String)
        ensures
            r@ == path::render(self.file()),
    {
        self.file.text()
    }

    /// The step after the size of [`InputSize::path`] is known.
    pub fn step(self, size: Result<u64, IoError>) -> (r: ReadStep)
        ensures
            r@ == after_size(
                self.label(),
                self.file(),
                match size {
                    Ok(n) => Ok(n),
                    Err(e) => Err(e.message@),
                },
            ),
    {
        let InputSize { label, file } = self;
        match size {
            Err(e) => ReadStep::Done(Err(refused(e.message))),
            Ok(n) => {
                if n > MAX_SOURCE_BYTES as u64 {
                    return ReadStep::Done(Err(too_large(n)));
                }
                ReadStep::Read(InputRead { label, file })
            },
        }
    }
}

impl InputRead {
    pub closed spec fn label(&self) -> Seq<char> {
        self.label@
    }

    pub closed spec fn file(&self) -> Seq<Seq<char>> {
        self.file@
    }

    /// The file whose text is wanted.
    pub fn path(&self) -> (r: String)
        ensures
            r@ == path::render(self.file()),
    {
        self.file.text()
    }

    /// The source, once [`InputRead::path`] was read, and what diagnostics call it.
    pub fn step(self, contents: Result<String, IoError>) -> (r: Result<(String, String), RpcError>)
        ensures
            ReadView::Done(read_result(r)) == after_read(
                self.label(),
                match contents {
                    Ok(s) => Ok(s@),
                    Err(e) => Err(e.message@),
                },
            ),
    {
        match contents {
            Err(e) => Err(refused(e.message)),
            Ok(s) => Ok((s, self.label)),
        }
    }
}

/// Starts to read the source that a request names.
pub fn read_input(ws: &Workspace, input: &SourceInput) -> (r: ReadStep)
    ensures
        r@ == start_reading(ws@, input@),
{
    match (&input.path, &input.source) {
        (Some(p), None) => ReadStep::Resolve(
            InputResolve { label: p.as_str().to_owned(), at: ws.resolve(p.as_str()) },
        ),
        (None, Some(s)) => {
            let len: usize = s.as_str().len();
            if len > MAX_SOURCE_BYTES {
                return ReadStep::Done(Err(too_large(len as u64)));
            }
            ReadStep::Done(Ok((s.as_str().to_owned(), "<inline>".to_owned())))
        },
        _ => ReadStep::Done(Err(exactly_one())),
    }
}

/// What the formatter is given for a request.
pub open spec fn fmt_input_of(input: SourceInputView) -> Result<InputView, RpcErrorView> {
    match (input.path, input.source) {
        (Some(p), None) => Ok(InputView::Path(p)),
        (None, Some(s)) => Ok(InputView::Source(s)),
        _ => Err(not_exactly_one()),
    }
}

/// What the formatter is given for a request.
pub fn format_input(input: SourceInput) -> (r: Result<FmtInput, RpcError>)
    ensures
        match r {
            Ok(i) => fmt_input_of(input@) == Ok::<InputView, RpcErrorView>(i@),
            Err(e) => fmt_input_of(input@) == Err::<InputView, RpcErrorView>(e@),
        },
{
    let SourceInput { path, source } = input;
    match (path, source) {
        (Some(p), None) => Ok(FmtInput::Path(p)),
        (None, Some(s)) => Ok(FmtInput::Source(s)),
        _ => Err(exactly_one()),
    }
}

// ---------------------------------------------------------------------------
// Laws
// ---------------------------------------------------------------------------

/// Whether `b` can come directly after `a`.
pub open spec fn follows(a: ReadView, b: ReadView) -> bool {
    match a {
        ReadView::Resolve { label, at } => exists|probe: ProbeView|
            b == after_probe(label, at, probe),
        ReadView::Kind { label, file } => exists|is_dir: bool| b == after_kind(label, file, is_dir),
        ReadView::Size { label, file } => exists|size: Result<u64, Seq<char>>|
            b == after_size(label, file, size),
        ReadView::Read { label, .. } => exists|contents: Result<Seq<char>, Seq<char>>|
            b == after_read(label, contents),
        ReadView::Done(_) => false,
    }
}

/// Whether these are the steps of reading a source, from the first on.
pub open spec fn walk(root: Seq<Seq<char>>, input: SourceInputView, steps: Seq<ReadView>) -> bool {
    &&& steps.len() > 0
    &&& steps[0] == start_reading(root, input)
    &&& forall|i: int| 0 < i < steps.len() ==> follows(steps[i - 1], #[trigger] steps[i])
}

/// A source is read only where exactly one of the two was given, and it is known by what the
/// request called it. A file is read only where its size was found to be in the limit just
/// before, and no file is looked at that does not lie in the root.
pub proof fn law_only_one_source_in_the_limits_is_read(
    root: Seq<Seq<char>>,
    input: SourceInputView,
    steps: Seq<ReadView>,
    i: int,
)
    requires
        walk(root, input, steps),
        0 <= i < steps.len(),
    ensures
        steps[i] matches ReadView::Done(Ok((s, label))) ==> {
            ||| input.path == Some(label) && input.source is None && i > 0 && steps[i - 1] is Read
            ||| input.path is None && input.source == Some(s) && label == "<inline>"@
                && text::byte_len(s) <= MAX_SOURCE_BYTES
        },
        steps[i] matches ReadView::Read { label, file } ==> i > 0 && steps[i - 1]
            == (ReadView::Size { label, file }),
        steps[i] matches ReadView::Kind { file, .. } ==> root.is_prefix_of(file),
        steps[i] matches ReadView::Size { file, .. } ==> root.is_prefix_of(file),
        steps[i] matches ReadView::Read { file, .. } ==> root.is_prefix_of(file),
{
    lemma_labels(root, input, steps, i);
    if i > 0 {
        lemma_labels(root, input, steps, i - 1);
        assert(follows(steps[i - 1], steps[i]));
    }
}

/// Where a step stands on a path, the request gave that path and no source.
spec fn labelled(root: Seq<Seq<char>>, input: SourceInputView, step: ReadView) -> bool {
    match step {
        ReadView::Resolve { label, at } => input.path == Some(label) && input.source is None
            && at.root == root,
        ReadView::Kind { label, file } => input.path == Some(label) && input.source is None
            && root.is_prefix_of(file),
        ReadView::Size { label, file } => input.path == Some(label) && input.source is None
            && root.is_prefix_of(file),
        ReadView::Read { label, file } => input.path == Some(label) && input.source is None
            && root.is_prefix_of(file),
        ReadView::Done(_) => true,
    }
}

proof fn lemma_labels(
    root: Seq<Seq<char>>,
    input: SourceInputView,
    steps: Seq<ReadView>,
    i: int,
)
    requires
        walk(root, input, steps),
        0 <= i < steps.len(),
    ensures
        labelled(root, input, steps[i]),
    decreases i,
{
    if i > 0 {
        lemma_labels(root, input, steps, i - 1);
        assert(follows(steps[i - 1], steps[i]));
    }
}

/// A source that is given is taken as it stands, up to two mebibytes of it, and goes by the name
/// of one that has no file; a longer one is refused with its size. A path is resolved from the
/// root, and goes by what the request called it.
pub proof fn law_a_given_source_is_taken_as_it_is(root: Seq<Seq<char>>, t: Seq<char>)
    ensures
        text::byte_len(t) <= 2_097_152 ==> start_reading(
            root,
            SourceInputView { path: None, source: Some(t) },
        ) == ReadView::Done(Ok((t, "<inline>"@))),
        text::byte_len(t) > 2_097_152 ==> start_reading(
            root,
            SourceInputView { path: None, source: Some(t) },
        ) == ReadView::Done(
            Err(
                RpcErrorView {
                    kind: super::RpcErrorKind::InvalidParams,
                    message: "input too large: "@ + text::dec(text::byte_len(t) as nat)
                        + " bytes (max "@ + text::dec(2_097_152) + ")"@,
                },
            ),
        ),
        start_reading(root, SourceInputView { path: Some(t), source: None }) == (ReadView::Resolve {
            label: t,
            at: workspace::start_resolving(root, t),
        }),
{
}

/// A request that gives both a path and a source, or neither, is refused for just that, to read as
/// to format; with one of them the formatter gets that one.
pub proof fn law_exactly_one_is_asked_for(
    root: Seq<Seq<char>>,
    p: Seq<char>,
    s: Seq<char>,
    given: bool,
)
    ensures
        ({
            let both = SourceInputView { path: Some(p), source: Some(s) };
            let neither = SourceInputView { path: None, source: None };
            let input = if given {
                both
            } else {
                neither
            };
            let refusal = RpcErrorView {
                kind: super::RpcErrorKind::InvalidParams,
                message: "supply exactly one of `path` or `source`"@,
            };
            &&& start_reading(root, input) == ReadView::Done(Err(refusal))
            &&& fmt_input_of(input) == Err::<InputView, RpcErrorView>(refusal)
        }),
        fmt_input_of(SourceInputView { path: Some(p), source: None }) == Ok::<
            InputView,
            RpcErrorView,
        >(InputView::Path(p)),
        fmt_input_of(SourceInputView { path: None, source: Some(s) }) == Ok::<
            InputView,
            RpcErrorView,
        >(InputView::Source(s)),
{
}

/// Of a path, a directory is refused with its name, a file of more than two mebibytes with its
/// size, and what the file system refuses with its own words. Every other file is read, and its
/// text is handed on whole under the name that the request gave.
pub proof fn law_a_file_is_read_whole(
    label: Seq<char>,
    file: Seq<Seq<char>>,
    size: u64,
    t: Seq<char>,
    m: Seq<char>,
)
    ensures
        after_kind(label, file, false) == (ReadView::Size { label, file }),
        after_kind(label, file, true) == ReadView::Done(
            Err(
                RpcErrorView {
                    kind: super::RpcErrorKind::InvalidParams,
                    message: "`path` must be a file, not a directory: "@ + text::debug_text(label),
                },
            ),
        ),
        size <= 2_097_152 ==> after_size(label, file, Ok(size)) == (ReadView::Read { label, file }),
        size > 2_097_152 ==> after_size(label, file, Ok(size)) == ReadView::Done(
            Err(
                RpcErrorView {
                    kind: super::RpcErrorKind::InvalidParams,
                    message: "input too large: "@ + text::dec(size as nat) + " bytes (max "@
                        + text::dec(2_097_152) + ")"@,
                },
            ),
        ),
        after_size(label, file, Err(m)) == ReadView::Done(
            Err(RpcErrorView { kind: super::RpcErrorKind::InvalidParams, message: m }),
        ),
        after_read(label, Ok(t)) == ReadView::Done(Ok((t, label))),
        after_read(label, Err(m)) == ReadView::Done(
            Err(RpcErrorView { kind: super::RpcErrorKind::InvalidParams, message: m }),
        ),
{
}

/// What was read is seen as it is, the source and its name each in its place, and so is a refusal.
pub proof fn law_what_was_read_is_seen(r: Result<(String, String), RpcError>)
    ensures
        r matches Ok(p) ==> read_result(r) == Ok::<(Seq<char>, Seq<char>), RpcErrorView>(
            (p.0@, p.1@),
        ),
        r matches Err(e) ==> read_result(r) == Err::<(Seq<char>, Seq<char>), RpcErrorView>(e@),
{
}

/// A request is seen as it was made, and a step as what it waits for.
pub proof fn law_steps_are_seen_as_they_are(input: SourceInput, s: ReadStep)
    ensures
        input@.path == text::opt_view(input.path),
        input@.source == text::opt_view(input.source),
        s is Resolve <==> s@ is Resolve,
        s is Kind <==> s@ is Kind,
        s is Size <==> s@ is Size,
        s is Read <==> s@ is Read,
        s matches ReadStep::Done(r) ==> s@ == ReadView::Done(read_result(r)),
        s matches ReadStep::Resolve(r) ==> s@ == (ReadView::Resolve {
            label: r.label(),
            at: r.at(),
        }),
        s matches ReadStep::Kind(r) ==> s@ == (ReadView::Kind { label: r.label(), file: r.file() }),
        s matches ReadStep::Size(r) ==> s@ == (ReadView::Size { label: r.label(), file: r.file() }),
        s matches ReadStep::Read(r) ==> s@ == (ReadView::Read { label: r.label(), file: r.file() }),
{
}

} // verus!
