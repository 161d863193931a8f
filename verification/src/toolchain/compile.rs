//! Compiling a contract.
//!
//! A contract that does not compile is no failure of the call: its diagnostics are the result.

use vstd::prelude::*;

use crate::diagnostic;
use crate::diagnostic::{Diagnostic, DiagnosticView};
use crate::error::{CoreError, ErrorView};
use crate::path;
use crate::path::AbsPath;
use crate::text;
use crate::time::Duration;
use crate::workspace;
use crate::workspace::{assert_no_symlink_swap, Entry, RevalidateStep, SwapCheck, SwapNext};

use super::parse_diag;
use super::parse_diag::parse_compactc_output;
use super::{Command, CommandView, Ended, EndedView, Toolchain, ToolchainView};

verus! {

broadcast use vstd::string::group_string_axioms;

/// The exit code of the compiler for a contract that does not compile.
pub const COMPACTC_ERROR_EXIT: i32 = 255;

/// What to compile, and where to.
#[derive(Debug)]
pub struct CompileRequest {
    pub source: AbsPath,
    pub target_dir: AbsPath,
    /// Make no proving keys; their cost grows with the size of the circuits.
    pub skip_zk: bool,
    pub no_communications_commitment: bool,
    pub source_root: Option<String>,
}

/// What a [`CompileRequest`] says.
pub struct RequestView {
    pub source: Seq<Seq<char>>,
    pub target_dir: Seq<Seq<char>>,
    pub skip_zk: bool,
    pub no_communications_commitment: bool,
    pub source_root: Option<Seq<char>>,
}

impl View for CompileRequest {
    type V = RequestView;

    open spec fn view(&self) -> RequestView {
        RequestView {
            source: self.source@,
            target_dir: self.target_dir@,
            skip_zk: self.skip_zk,
            no_communications_commitment: self.no_communications_commitment,
            source_root: text::opt_view(self.source_root),
        }
    }
}

/// What a compile came to.
#[derive(Debug)]
pub struct CompileOutcome {
    pub ok: bool,
    /// Said of every compile, so that one that made no proving keys is never taken for one that
    /// can be deployed, whatever an earlier one left behind.
    pub proving_keys: bool,
    pub diagnostics: Vec<Diagnostic>,
    pub duration: Duration,
}

/// What a [`CompileOutcome`] says.
pub struct OutcomeView {
    pub ok: bool,
    pub proving_keys: bool,
    pub diagnostics: Seq<DiagnosticView>,
    pub duration: nat,
}

impl View for CompileOutcome {
    type V = OutcomeView;

    open spec fn view(&self) -> OutcomeView {
        OutcomeView {
            ok: self.ok,
            proving_keys: self.proving_keys,
            diagnostics: diagnostic::diagnostic_views(self.diagnostics@),
            duration: self.duration@,
        }
    }
}

/// The flags for a request. `--vscode` puts each error on one line.
pub open spec fn flags(req: RequestView) -> Seq<Seq<char>> {
    let base = seq!["--vscode"@];
    let zk = if req.skip_zk {
        base.push("--skip-zk"@)
    } else {
        base
    };
    let commitment = if req.no_communications_commitment {
        zk.push("--no-communications-commitment"@)
    } else {
        zk
    };
    match req.source_root {
        Some(root) => commitment.push("--sourceRoot"@).push(root),
        None => commitment,
    }
}

/// What follows `compact compile` and the pin for a request: the flags, the source and the
/// target directory.
pub open spec fn request_arguments(req: RequestView) -> Seq<Seq<char>> {
    flags(req).push(path::render(req.source)).push(path::render(req.target_dir))
}

/// The subprocess for a request.
pub open spec fn compile_command(tc: ToolchainView, req: RequestView, timeout: nat) -> CommandView {
    CommandView {
        bin: tc.bin,
        argv: super::compile_arguments(tc, request_arguments(req)),
        timeout,
        output_limit: tc.output_limit,
    }
}

/// What a compile comes to: `skip_zk` is whether it was to make no proving keys, `ended` how its
/// subprocess ended, `keys` whether there are proving keys in the target directory, `elapsed`
/// how long it took.
pub open spec fn compile_result(
    command: CommandView,
    skip_zk: bool,
    ended: EndedView,
    keys: bool,
    elapsed: nat,
) -> Result<OutcomeView, ErrorView> {
    match super::settled(ended, command.timeout) {
        Err(e) => Err(e),
        Ok(out) => if out.status == 0 {
            Ok(
                OutcomeView {
                    ok: true,
                    proving_keys: keys && !skip_zk,
                    diagnostics: seq![],
                    duration: elapsed,
                },
            )
        } else if out.status == COMPACTC_ERROR_EXIT {
            Ok(
                OutcomeView {
                    ok: false,
                    proving_keys: false,
                    diagnostics: parse_diag::output_diagnostics(out.stderr + out.stdout),
                    duration: elapsed,
                },
            )
        } else {
            Err(
                ErrorView::ToolchainFailed {
                    cmd: super::command_text(command.bin, command.argv),
                    code: out.status,
                    stderr: out.stderr + out.stdout,
                },
            )
        },
    }
}

pub open spec fn outcome_view(r: Result<CompileOutcome, CoreError>) -> Result<
    OutcomeView,
    ErrorView,
> {
    match r {
        Ok(o) => Ok(o@),
        Err(e) => Err(e@),
    }
}

/// A compile before it runs: the target directory is looked at once more, since the compiler
/// would follow a symbolic link that was put in its place.
#[derive(Debug)]
pub struct CompileCheck {
    check: SwapCheck,
    run: CompileRun,
}

/// A compile that may run.
#[derive(Debug)]
pub struct CompileRun {
    command: Command,
    keys_dir: String,
    skip_zk: bool,
}

/// What follows from one look at the target directory.
#[derive(Debug)]
pub enum CompileStep {
    /// Look at the entry at [`CompileCheck::path`] next.
    Look(CompileCheck),
    /// Run [`CompileRun::command`] next.
    Run(CompileRun),
    Refused(CoreError),
}

impl View for CompileRun {
    type V = CommandView;

    closed spec fn view(&self) -> CommandView {
        self.command@
    }
}

impl CompileRun {
    /// Where the proving keys of the compile are.
    pub closed spec fn keys(&self) -> Seq<char> {
        self.keys_dir@
    }

    /// Whether the compile makes no proving keys.
    pub closed spec fn skip_zk(&self) -> bool {
        self.skip_zk
    }

    /// The subprocess to run.
    pub fn command(&self) -> (r: &Command)
        ensures
            r@ == self@,
    {
        &self.command
    }

    /// Where the proving keys of the compile are. A compile without proving keys does not
    /// make the directory.
    pub fn keys_dir(&self) -> (r: &str)
        ensures
            r@ == self.keys(),
    {
        self.keys_dir.as_str()
    }

    /// What the compile comes to.
    pub fn settle(&self, ended: Ended, keys_present: bool, elapsed: Duration) -> (r: Result<
        CompileOutcome,
        CoreError,
    >)
        ensures
            outcome_view(r) == compile_result(
                self@,
                self.skip_zk(),
                ended@,
                keys_present,
                elapsed@,
            ),
    {
        let out = match self.command.settle(ended) {
            Ok(out) => out,
            Err(e) => {
                return Err(e);
            },
        };
        if out.status == 0 {
            let diagnostics: Vec<Diagnostic> = Vec::new();
            assert(diagnostic::diagnostic_views(diagnostics@) =~= Seq::<DiagnosticView>::empty());
            return Ok(
                CompileOutcome {
                    ok: true,
                    proving_keys: keys_present && !self.skip_zk,
                    diagnostics,
                    duration: elapsed,
                },
            );
        }
        let mut said = out.stderr.as_str().to_owned();
        said.append(out.stdout.as_str());
        if out.status == COMPACTC_ERROR_EXIT {
            return Ok(
                CompileOutcome {
                    ok: false,
                    proving_keys: false,
                    diagnostics: parse_compactc_output(said.as_str()),
                    duration: elapsed,
                },
            );
        }
        Err(
            CoreError::ToolchainFailed {
                cmd: self.command.text(),
                code: out.status,
                stderr: said,
            },
        )
    }
}

impl CompileCheck {
    #[verifier::type_invariant]
    spec fn rootless(self) -> bool {
        self.check.root() is None
    }

    /// The target directory.
    pub closed spec fn vetted(&self) -> Seq<Seq<char>> {
        self.check.vetted()
    }

    /// How many of its names are looked at next.
    pub closed spec fn kept(&self) -> int {
        self.check.kept()
    }

    /// The compile that is checked.
    pub closed spec fn run(&self) -> CompileRun {
        self.run
    }

    /// The path to look at.
    pub fn path(&self) -> (r: String)
        ensures
            r@ == path::render(self.vetted().take(self.kept())),
            0 <= self.kept() <= self.vetted().len(),
    {
        self.check.path()
    }

    /// What follows from the entry at [`CompileCheck::path`].
    pub fn step(self, entry: Entry) -> (r: CompileStep)
        ensures
            match workspace::swap_step(self.vetted(), self.kept(), entry@) {
                SwapNext::Up => r matches CompileStep::Look(c) && c.vetted() == self.vetted()
                    && c.kept() == self.kept() - 1 && c.run() == self.run(),
                SwapNext::Passed => r matches CompileStep::Run(run) && run == self.run(),
                SwapNext::Refused(v) => r matches CompileStep::Refused(e) && e@ == v,
            },
    {
        proof {
            use_type_invariant(&self);
        }
        let CompileCheck { check, run } = self;
        match check.step(entry) {
            RevalidateStep::Entry(check) => CompileStep::Look(CompileCheck { check, run }),
            RevalidateStep::Place(_) => CompileStep::Run(run),
            RevalidateStep::Done(Ok(())) => CompileStep::Run(run),
            RevalidateStep::Done(Err(e)) => CompileStep::Refused(e),
        }
    }
}

/// The arguments for a request, without `compile` and the pin.
fn arguments(req: &CompileRequest) -> (r: Vec<String>)
    ensures
        text::views(r@) == request_arguments(req@),
{
    let mut args: Vec<String> = Vec::new();
    args.push("--vscode".to_owned());
    let ghost mut said = seq!["--vscode"@];
    assert(text::views(args@) =~= said);
    if req.skip_zk {
        let s = "--skip-zk".to_owned();
        proof {
            text::lemma_views_push(args@, s);
            said = said.push(s@);
        }
        args.push(s);
    }
    if req.no_communications_commitment {
        let s = "--no-communications-commitment".to_owned();
        proof {
            text::lemma_views_push(args@, s);
            said = said.push(s@);
        }
        args.push(s);
    }
    match &req.source_root {
        Some(root) => {
            let s = "--sourceRoot".to_owned();
            proof {
                text::lemma_views_push(args@, s);
                said = said.push(s@);
            }
            args.push(s);
            let t = root.as_str().to_owned();
            proof {
                text::lemma_views_push(args@, t);
                said = said.push(t@);
            }
            args.push(t);
        },
        None => {},
    }
    assert(said == flags(req@));
    let source = req.source.text();
    proof {
        text::lemma_views_push(args@, source);
    }
    args.push(source);
    let target = req.target_dir.text();
    proof {
        text::lemma_views_push(args@, target);
    }
    args.push(target);
    args
}

impl Toolchain {
    /// Starts a compile that may take as long as `timeout`; none is started where the caller
    /// was already told to stop.
    pub fn compile(&self, req: &CompileRequest, cancelled: bool, timeout: Duration) -> (r: Result<
        CompileCheck,
        CoreError,
    >)
        ensures
            match r {
                Ok(c) => !cancelled && c.vetted() == req@.target_dir && c.kept()
                    == req@.target_dir.len() && c.run()@ == compile_command(
                    self@,
                    req@,
                    timeout@,
                ) && c.run().keys() == path::join_text(path::render(req@.target_dir), "keys"@)
                    && c.run().skip_zk() == req@.skip_zk,
                Err(e) => cancelled && e@ == ErrorView::Cancelled,
            },
    {
        if cancelled {
            return Err(CoreError::Cancelled);
        }
        let args = arguments(req);
        let command = Command {
            bin: self.bin().to_owned(),
            argv: self.compile_argv(&args),
            timeout,
            output_limit: self.output_limit(),
        };
        let keys_dir = path::join(req.target_dir.text().as_str(), "keys");
        let check = assert_no_symlink_swap(&req.target_dir);
        Ok(CompileCheck { check, run: CompileRun { command, keys_dir, skip_zk: req.skip_zk } })
    }
}

// ---------------------------------------------------------------------------
// Laws
// ---------------------------------------------------------------------------

/// A contract that does not compile is a diagnostic, never an error, and what the compiler
/// said is not lost; a compile is fine exactly where the compiler exits with zero, and only
/// then, and only where it was to make them, are there proving keys.
pub proof fn law_a_broken_contract_is_a_diagnostic(
    command: CommandView,
    skip_zk: bool,
    code: i32,
    stdout: Seq<char>,
    stderr: Seq<char>,
    keys: bool,
    elapsed: nat,
)
    ensures
        ({
            let ended = EndedView::Exited { code: Some(code), stdout, stderr };
            let r = compile_result(command, skip_zk, ended, keys, elapsed);
            &&& code == 255 ==> (r matches Ok(o) && !o.ok && !o.proving_keys
                && (o.diagnostics.len() == 0 <==> text::trim(stderr + stdout).len() == 0))
            &&& code == 0 ==> (r matches Ok(o) && o.ok && o.proving_keys == (keys && !skip_zk)
                && o.diagnostics.len() == 0)
            &&& r is Err <==> code != 0 && code != 255
            &&& skip_zk ==> (r matches Ok(o) ==> !o.proving_keys)
        }),
{
    parse_diag::law_output_is_never_dropped(stderr + stdout);
}

/// What a compile is told: the source and the target directory come last, and before them stands
/// every flag that was asked for and no other.
pub proof fn law_requests_are_passed_on(req: RequestView)
    ensures
        ({
            let a = request_arguments(req);
            let n = a.len() as int;
            &&& a[0] == "--vscode"@
            &&& a[n - 2] == path::render(req.source)
            &&& a[n - 1] == path::render(req.target_dir)
            &&& n == 3 + (if req.skip_zk {
                1int
            } else {
                0
            }) + (if req.no_communications_commitment {
                1int
            } else {
                0
            }) + (if req.source_root is Some {
                2int
            } else {
                0
            })
            &&& req.skip_zk ==> a[1] == "--skip-zk"@
            &&& req.no_communications_commitment ==> a[if req.skip_zk {
                2int
            } else {
                1
            }] == "--no-communications-commitment"@
            &&& req.source_root matches Some(root) ==> a[n - 4] == "--sourceRoot"@ && a[n - 3]
                == root
        }),
{
}

/// A compile is run by the toolchain's program, pinned as the toolchain is, and bounded by the time
/// that it is given.
pub proof fn law_a_compile_is_a_command_of_the_toolchain(
    tc: ToolchainView,
    req: RequestView,
    timeout: nat,
)
    ensures
        ({
            let c = compile_command(tc, req, timeout);
            &&& c.bin == tc.bin
            &&& c.timeout == timeout
            &&& c.output_limit == tc.output_limit
            &&& c.argv[0] == "compile"@
            &&& tc.compiler_version matches Some(v) ==> c.argv[1] == "+"@ + v && c.argv.skip(2)
                == request_arguments(req)
            &&& tc.compiler_version is None ==> c.argv.skip(1) == request_arguments(req)
        }),
{
    super::law_the_pin_comes_first(tc, request_arguments(req));
}

/// A compile tells how long it took, and of a contract that does not compile what the compiler said
/// on its error stream and then on its standard output. An exit code that the compiler has for
/// neither is an error, told with the command line, the code and the output.
pub proof fn law_compiles_tell_what_the_compiler_said(
    command: CommandView,
    skip_zk: bool,
    code: Option<i32>,
    stdout: Seq<char>,
    stderr: Seq<char>,
    keys: bool,
    elapsed: nat,
)
    ensures
        ({
            let ended = EndedView::Exited { code, stdout, stderr };
            let r = compile_result(command, skip_zk, ended, keys, elapsed);
            &&& r matches Ok(o) ==> o.duration == elapsed
            &&& code == Some(255i32) ==> (r matches Ok(o) && o.diagnostics
                == parse_diag::output_diagnostics(stderr + stdout))
            &&& r matches Err(e) ==> e == (ErrorView::ToolchainFailed {
                cmd: command.bin + " "@ + text::joined(command.argv, " "@),
                code: match code {
                    Some(c) => c as int,
                    None => -1,
                },
                stderr: stderr + stdout,
            })
            &&& code is None ==> r is Err
        }),
{
}

/// A compile that did not come to an end of its own is no outcome: it is told why, with the time
/// that it had.
pub proof fn law_compiles_that_did_not_end_are_errors(
    command: CommandView,
    skip_zk: bool,
    ended: EndedView,
    keys: bool,
    elapsed: nat,
)
    requires
        !(ended is Exited),
    ensures
        ({
            let r = compile_result(command, skip_zk, ended, keys, elapsed);
            &&& r is Err
            &&& ended is Cancelled ==> r->Err_0 == ErrorView::Cancelled
            &&& ended is TimedOut ==> r->Err_0 == ErrorView::Timeout(command.timeout)
            &&& ended matches EndedView::NotStarted(kind, m) ==> (if kind == crate::error::IoKind::NotFound {
                r->Err_0 == ErrorView::ToolchainNotFound
            } else {
                r->Err_0 == ErrorView::Io(kind, m)
            })
            &&& ended matches EndedView::Lost(kind, m) ==> r->Err_0 == ErrorView::Io(kind, m)
        }),
{
}

/// A request and an outcome are seen as they are, each part under its own name.
pub proof fn law_outcomes_are_seen_as_they_are(
    req: CompileRequest,
    o: CompileOutcome,
    e: CoreError,
)
    ensures
        req@.source == req.source@,
        req@.target_dir == req.target_dir@,
        req@.skip_zk == req.skip_zk,
        req@.no_communications_commitment == req.no_communications_commitment,
        req@.source_root == text::opt_view(req.source_root),
        o@.ok == o.ok,
        o@.proving_keys == o.proving_keys,
        o@.diagnostics == diagnostic::diagnostic_views(o.diagnostics@),
        o@.duration == o.duration@,
        outcome_view(Ok(o)) == Ok::<OutcomeView, ErrorView>(o@),
        outcome_view(Err(e)) == Err::<OutcomeView, ErrorView>(e@),
{
}

} // verus!
