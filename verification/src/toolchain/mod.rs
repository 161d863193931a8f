//! The `compact` command line.
//!
//! Every invocation is a fresh subprocess: the compiler version can change between calls, so
//! nothing is cached. What to run, how long and what its end means is decided here; the
//! subprocess itself is run by the caller.

use vstd::prelude::*;

use crate::error::{CoreError, ErrorView, IoError, IoKind};
use crate::text::{clone_opt, join, trimmed};
use crate::text;
use crate::time::Duration;

pub mod compile;
pub mod fmt;
pub mod parse_diag;
pub mod proc;
pub mod versions;

use proc::CappedBuffer;

verus! {

broadcast use vstd::string::group_string_axioms;

/// How long a subprocess other than a compile may run, in seconds.
pub const DEFAULT_RUN_TIMEOUT_SECS: u64 = 300;

/// How many bytes of each of a subprocess's two streams are kept.
pub const DEFAULT_OUTPUT_LIMIT: usize = 16 * 1024 * 1024;

/// What a subprocess left behind.
#[derive(Debug)]
pub struct Output {
    pub status: i32,
    pub stdout: String,
    pub stderr: String,
}

/// What an [`Output`] says.
pub struct OutputView {
    pub status: int,
    pub stdout: Seq<char>,
    pub stderr: Seq<char>,
}

impl View for Output {
    type V = OutputView;

    open spec fn view(&self) -> OutputView {
        OutputView { status: self.status as int, stdout: self.stdout@, stderr: self.stderr@ }
    }
}

/// A handle to the `compact` program.
#[derive(Debug)]
pub struct Toolchain {
    bin: String,
    compiler_version: Option<String>,
    timeout: Duration,
    output_limit: usize,
}

/// What a [`Toolchain`] is set to.
pub struct ToolchainView {
    pub bin: Seq<char>,
    pub compiler_version: Option<Seq<char>>,
    /// In nanoseconds.
    pub timeout: nat,
    pub output_limit: usize,
}

impl View for Toolchain {
    type V = ToolchainView;

    closed spec fn view(&self) -> ToolchainView {
        ToolchainView {
            bin: self.bin@,
            compiler_version: text::opt_view(self.compiler_version),
            timeout: self.timeout@,
            output_limit: self.output_limit,
        }
    }
}

/// The arguments of `compact compile` with `args`: the version pin, where there is one, comes
/// before them.
pub open spec fn compile_arguments(tc: ToolchainView, args: Seq<Seq<char>>) -> Seq<Seq<char>> {
    match tc.compiler_version {
        Some(v) => seq!["compile"@, "+"@ + v] + args,
        None => seq!["compile"@] + args,
    }
}

/// The command line that an error reports: the program and its arguments.
pub open spec fn command_text(bin: Seq<char>, argv: Seq<Seq<char>>) -> Seq<char> {
    bin + " "@ + text::joined(argv, " "@)
}

/// A subprocess to run: the program, its arguments, and what bounds it.
#[derive(Debug)]
pub struct Command {
    pub bin: String,
    pub argv: Vec<String>,
    pub timeout: Duration,
    pub output_limit: usize,
}

/// What a [`Command`] says.
pub struct CommandView {
    pub bin: Seq<char>,
    pub argv: Seq<Seq<char>>,
    pub timeout: nat,
    pub output_limit: usize,
}

impl View for Command {
    type V = CommandView;

    open spec fn view(&self) -> CommandView {
        CommandView {
            bin: self.bin@,
            argv: text::views(self.argv@),
            timeout: self.timeout@,
            output_limit: self.output_limit,
        }
    }
}

/// How a subprocess ended, or failed to start.
#[derive(Debug)]
pub enum Ended {
    NotStarted(IoError),
    Cancelled,
    TimedOut,
    /// Waiting for it or reading from it failed.
    Lost(IoError),
    /// It exited, with a code unless a signal ended it.
    Exited { code: Option<i32>, stdout: CappedBuffer, stderr: CappedBuffer },
}

/// What an [`Ended`] says.
pub enum EndedView {
    NotStarted(IoKind, Seq<char>),
    Cancelled,
    TimedOut,
    Lost(IoKind, Seq<char>),
    Exited { code: Option<i32>, stdout: Seq<char>, stderr: Seq<char> },
}

impl View for Ended {
    type V = EndedView;

    open spec fn view(&self) -> EndedView {
        match self {
            Ended::NotStarted(e) => EndedView::NotStarted(e.kind, e.message@),
            Ended::Cancelled => EndedView::Cancelled,
            Ended::TimedOut => EndedView::TimedOut,
            Ended::Lost(e) => EndedView::Lost(e.kind, e.message@),
            Ended::Exited { code, stdout, stderr } => EndedView::Exited {
                code: *code,
                stdout: proc::marked_text(stdout@, stdout.limit() as nat),
                stderr: proc::marked_text(stderr@, stderr.limit() as nat),
            },
        }
    }
}

/// What the end of a subprocess means, where it had `timeout` nanoseconds.
pub open spec fn settled(ended: EndedView, timeout: nat) -> Result<OutputView, ErrorView> {
    match ended {
        EndedView::NotStarted(kind, message) => if kind == IoKind::NotFound {
            Err(ErrorView::ToolchainNotFound)
        } else {
            Err(ErrorView::Io(kind, message))
        },
        EndedView::Cancelled => Err(ErrorView::Cancelled),
        EndedView::TimedOut => Err(ErrorView::Timeout(timeout)),
        EndedView::Lost(kind, message) => Err(ErrorView::Io(kind, message)),
        EndedView::Exited { code, stdout, stderr } => Ok(
            OutputView {
                status: match code {
                    Some(c) => c as int,
                    None => -1,
                },
                stdout,
                stderr,
            },
        ),
    }
}

pub open spec fn output_view(r: Result<Output, CoreError>) -> Result<OutputView, ErrorView> {
    match r {
        Ok(o) => Ok(o@),
        Err(e) => Err(e@),
    }
}

pub open spec fn text_view(r: Result<String, CoreError>) -> Result<Seq<char>, ErrorView> {
    match r {
        Ok(s) => Ok(s@),
        Err(e) => Err(e@),
    }
}

/// What a finished subprocess means to a caller that takes every other exit code than zero
/// for a failure.
pub open spec fn checked(bin: Seq<char>, argv: Seq<Seq<char>>, out: OutputView) -> Result<
    OutputView,
    ErrorView,
> {
    if out.status != 0 {
        Err(
            ErrorView::ToolchainFailed {
                cmd: command_text(bin, argv),
                code: out.status,
                stderr: out.stderr,
            },
        )
    } else {
        Ok(out)
    }
}

/// The two streams one after the other, with a line feed between them only where neither is
/// empty.
pub open spec fn streams_joined(out: OutputView) -> Seq<char> {
    if out.stdout.len() > 0 && out.stderr.len() > 0 {
        out.stdout + "\n"@ + out.stderr
    } else {
        out.stdout + out.stderr
    }
}

fn copy_all(args: &Vec<String>, into: &mut Vec<String>)
    ensures
        text::views(final(into)@) == text::views(old(into)@) + text::views(args@),
{
    let ghost before = text::views(into@);
    let mut i: usize = 0;
    assert(text::views(args@).take(0) =~= Seq::<Seq<char>>::empty());
    while i < args.len()
        invariant
            i <= args.len(),
            text::views(into@) == before + text::views(args@).take(i as int),
        decreases args.len() - i,
    {
        let s = args[i].as_str().to_owned();
        proof {
            text::lemma_views_push(into@, s);
            assert(text::views(args@).take(i + 1) =~= text::views(args@).take(i as int).push(
                args@[i as int]@,
            ));
        }
        into.push(s);
        assert(text::views(into@) =~= before + text::views(args@).take(i + 1));
        i = i + 1;
    }
    assert(text::views(args@).take(args@.len() as int) =~= text::views(args@));
}

impl Command {
    /// What the end of the subprocess means.
    pub fn settle(&self, ended: Ended) -> (r: Result<Output, CoreError>)
        ensures
            output_view(r) == settled(ended@, self@.timeout),
    {
        match ended {
            Ended::NotStarted(e) => match e.kind {
                IoKind::NotFound => Err(CoreError::ToolchainNotFound),
                IoKind::InvalidData => Err(CoreError::Io(e)),
                IoKind::Other => Err(CoreError::Io(e)),
            },
            Ended::Cancelled => Err(CoreError::Cancelled),
            Ended::TimedOut => Err(CoreError::Timeout(self.timeout)),
            Ended::Lost(e) => Err(CoreError::Io(e)),
            Ended::Exited { code, stdout, stderr } => Ok(
                Output {
                    status: match code {
                        Some(c) => c,
                        None => -1,
                    },
                    stdout: stdout.text(),
                    stderr: stderr.text(),
                },
            ),
        }
    }

    /// The group to reap once the subprocess led by `pid` ended this way. A caller that was
    /// told to stop, or ran out of time, reaps the whole group: the program runs the compiler
    /// as a subprocess of its own.
    pub fn reap_after(&self, ended: &Ended, pid: u32) -> (r: Option<u32>)
        ensures
            r == match ended@ {
                EndedView::Cancelled | EndedView::TimedOut => proc::group_of(pid),
                _ => None,
            },
    {
        match ended {
            Ended::Cancelled => proc::group_to_reap(pid),
            Ended::TimedOut => proc::group_to_reap(pid),
            Ended::NotStarted(_) => None,
            Ended::Lost(_) => None,
            Ended::Exited { .. } => None,
        }
    }

    /// The command line as an error reports it.
    pub fn text(&self) -> (r: String)
        ensures
            r@ == command_text(self@.bin, self@.argv),
    {
        let mut s = self.bin.as_str().to_owned();
        s.append(" ");
        s.append(join(&self.argv, " ").as_str());
        s
    }

    /// The output of the subprocess, or a failure where its exit code is not zero.
    pub fn run_checked(&self, out: Output) -> (r: Result<Output, CoreError>)
        ensures
            output_view(r) == checked(self@.bin, self@.argv, out@),
    {
        if out.status != 0 {
            return Err(
                CoreError::ToolchainFailed {
                    cmd: self.text(),
                    code: out.status,
                    stderr: out.stderr,
                },
            );
        }
        Ok(out)
    }

    /// The standard output of the subprocess without the white space around it, or a failure
    /// where its exit code is not zero.
    pub fn line(&self, out: Output) -> (r: Result<String, CoreError>)
        ensures
            text_view(r) == match checked(self@.bin, self@.argv, out@) {
                Ok(o) => Ok(text::trim(o.stdout)),
                Err(e) => Err(e),
            },
    {
        match self.run_checked(out) {
            Ok(o) => Ok(trimmed(o.stdout.as_str())),
            Err(e) => Err(e),
        }
    }

    /// Both streams of the subprocess, or a failure where its exit code is not zero.
    pub fn report(&self, out: Output) -> (r: Result<String, CoreError>)
        ensures
            text_view(r) == match checked(self@.bin, self@.argv, out@) {
                Ok(o) => Ok(streams_joined(o)),
                Err(e) => Err(e),
            },
    {
        match self.run_checked(out) {
            Ok(o) => Ok(joined_output(&o)),
            Err(e) => Err(e),
        }
    }
}

/// The two streams of a finished command for display.
pub fn joined_output(out: &Output) -> (r: String)
    ensures
        r@ == streams_joined(out@),
{
    let mut s = out.stdout.as_str().to_owned();
    if !out.stdout.as_str().is_empty() && !out.stderr.as_str().is_empty() {
        s.append("\n");
    }
    s.append(out.stderr.as_str());
    s
}

impl Toolchain {
    /// A handle to the program `bin`, pinned to a compiler version where one is given.
    pub fn new(bin: &str, compiler_version: Option<String>) -> (r: Toolchain)
        ensures
            r@ == (ToolchainView {
                bin: bin@,
                compiler_version: text::opt_view(compiler_version),
                timeout: 300_000_000_000,
                output_limit: DEFAULT_OUTPUT_LIMIT,
            }),
    {
        Toolchain {
            bin: bin.to_owned(),
            compiler_version,
            timeout: Duration::from_secs(DEFAULT_RUN_TIMEOUT_SECS),
            output_limit: DEFAULT_OUTPUT_LIMIT,
        }
    }

    /// The same with another bound on how long a subprocess other than a compile may run.
    pub fn with_timeout(self, timeout: Duration) -> (r: Toolchain)
        ensures
            r@ == (ToolchainView { timeout: timeout@, ..self@ }),
    {
        let Toolchain { bin, compiler_version, timeout: _, output_limit } = self;
        Toolchain { bin, compiler_version, timeout, output_limit }
    }

    /// The same with another bound on how much of each stream is kept.
    pub fn with_output_limit(self, limit: usize) -> (r: Toolchain)
        ensures
            r@ == (ToolchainView { output_limit: limit, ..self@ }),
    {
        let Toolchain { bin, compiler_version, timeout, output_limit: _ } = self;
        Toolchain { bin, compiler_version, timeout, output_limit: limit }
    }

    /// A copy of the handle.
    pub fn duplicate(&self) -> (r: Toolchain)
        ensures
            r@ == self@,
    {
        Toolchain {
            bin: self.bin.as_str().to_owned(),
            compiler_version: clone_opt(&self.compiler_version),
            timeout: self.timeout,
            output_limit: self.output_limit,
        }
    }

    /// The program.
    pub fn bin(&self) -> (r: &str)
        ensures
            r@ == self@.bin,
    {
        self.bin.as_str()
    }

    /// How many bytes of each stream of a subprocess are kept.
    pub fn output_limit(&self) -> (r: usize)
        ensures
            r == self@.output_limit,
    {
        self.output_limit
    }

    /// The arguments of `compact compile [+VERSION] <args...>`. The pin comes first.
    pub fn compile_argv(&self, args: &Vec<String>) -> (r: Vec<String>)
        ensures
            text::views(r@) == compile_arguments(self@, text::views(args@)),
    {
        let mut full: Vec<String> = Vec::new();
        full.push("compile".to_owned());
        match &self.compiler_version {
            Some(v) => {
                let mut pin = "+".to_owned();
                pin.append(v.as_str());
                full.push(pin);
                assert(text::views(full@) =~= seq!["compile"@, "+"@ + v@]);
            },
            None => {
                assert(text::views(full@) =~= seq!["compile"@]);
            },
        }
        copy_all(args, &mut full);
        full
    }

    /// The subprocess `compact <args...>`; none is run where the caller was already told to
    /// stop.
    pub fn run(&self, args: &Vec<String>, cancelled: bool) -> (r: Result<Command, CoreError>)
        ensures
            match r {
                Ok(c) => !cancelled && c@ == (CommandView {
                    bin: self@.bin,
                    argv: text::views(args@),
                    timeout: self@.timeout,
                    output_limit: self@.output_limit,
                }),
                Err(e) => cancelled && e@ == ErrorView::Cancelled,
            },
    {
        if cancelled {
            return Err(CoreError::Cancelled);
        }
        let mut argv: Vec<String> = Vec::new();
        assert(text::views(argv@) =~= Seq::<Seq<char>>::empty());
        copy_all(args, &mut argv);
        assert(text::views(argv@) =~= text::views(args@));
        Ok(
            Command {
                bin: self.bin.as_str().to_owned(),
                argv,
                timeout: self.timeout,
                output_limit: self.output_limit,
            },
        )
    }

    /// The subprocess `compact compile [+VERSION] <args...>`.
    pub fn run_compile(&self, args: &Vec<String>, cancelled: bool) -> (r: Result<
        Command,
        CoreError,
    >)
        ensures
            match r {
                Ok(c) => !cancelled && c@ == (CommandView {
                    bin: self@.bin,
                    argv: compile_arguments(self@, text::views(args@)),
                    timeout: self@.timeout,
                    output_limit: self@.output_limit,
                }),
                Err(e) => cancelled && e@ == ErrorView::Cancelled,
            },
    {
        let argv = self.compile_argv(args);
        self.run(&argv, cancelled)
    }
}

/// The subprocess that a subcommand of the program is.
pub open spec fn subcommand(tc: ToolchainView, argv: Seq<Seq<char>>) -> CommandView {
    CommandView { bin: tc.bin, argv, timeout: tc.timeout, output_limit: tc.output_limit }
}

pub open spec fn command_view(r: Result<Command, CoreError>) -> Result<CommandView, ErrorView> {
    match r {
        Ok(c) => Ok(c@),
        Err(e) => Err(e@),
    }
}

/// The subprocess of a subcommand, or none where the caller was told to stop.
pub open spec fn unless_cancelled(tc: ToolchainView, argv: Seq<Seq<char>>, cancelled: bool) -> Result<
    CommandView,
    ErrorView,
> {
    if cancelled {
        Err(ErrorView::Cancelled)
    } else {
        Ok(subcommand(tc, argv))
    }
}

impl Toolchain {
    fn run_word(&self, word: &str, cancelled: bool) -> (r: Result<Command, CoreError>)
        ensures
            command_view(r) == unless_cancelled(self@, seq![word@], cancelled),
    {
        let mut args: Vec<String> = Vec::new();
        args.push(word.to_owned());
        assert(text::views(args@) =~= seq![word@]);
        self.run(&args, cancelled)
    }

    /// The subprocess that lists the compiler versions there are. Its standard output is the
    /// answer.
    pub fn list(&self, cancelled: bool) -> (r: Result<Command, CoreError>)
        ensures
            command_view(r) == unless_cancelled(self@, seq!["list"@], cancelled),
    {
        self.run_word("list", cancelled)
    }

    /// The subprocess that looks for a newer version. Both its streams are the answer.
    pub fn check(&self, cancelled: bool) -> (r: Result<Command, CoreError>)
        ensures
            command_view(r) == unless_cancelled(self@, seq!["check"@], cancelled),
    {
        self.run_word("check", cancelled)
    }

    /// The subprocess that removes every installed compiler. Both its streams are the answer.
    pub fn clean(&self, cancelled: bool) -> (r: Result<Command, CoreError>)
        ensures
            command_view(r) == unless_cancelled(self@, seq!["clean"@], cancelled),
    {
        self.run_word("clean", cancelled)
    }

    /// The subprocess that installs a compiler: the given version, or the latest. A text that
    /// is no version could be taken for a flag and is refused. Both its streams are the
    /// answer.
    pub fn update(&self, version: Option<&str>, cancelled: bool) -> (r: Result<Command, CoreError>)
        ensures
            match version {
                Some(v) => if versions::parsed_version(v@) is None {
                    command_view(r) == Err::<CommandView, ErrorView>(
                        ErrorView::InvalidArgs("not a valid compiler version: "@ + v@),
                    )
                } else {
                    command_view(r) == unless_cancelled(self@, seq!["update"@, v@], cancelled)
                },
                None => command_view(r) == unless_cancelled(self@, seq!["update"@], cancelled),
            },
    {
        match version {
            None => self.run_word("update", cancelled),
            Some(v) => {
                if versions::parse_version(v).is_none() {
                    let mut m = "not a valid compiler version: ".to_owned();
                    m.append(v);
                    return Err(CoreError::InvalidArgs(m));
                }
                let mut args: Vec<String> = Vec::new();
                args.push("update".to_owned());
                args.push(v.to_owned());
                assert(text::views(args@) =~= seq!["update"@, v@]);
                self.run(&args, cancelled)
            },
        }
    }
}

/// The version pin is the first argument after `compile`, whatever the others are, and no
/// other argument is lost or moved.
pub proof fn law_the_pin_comes_first(tc: ToolchainView, args: Seq<Seq<char>>)
    ensures
        compile_arguments(tc, args)[0] == "compile"@,
        tc.compiler_version matches Some(v) ==> compile_arguments(tc, args)[1] == "+"@ + v
            && compile_arguments(tc, args).skip(2) == args,
        tc.compiler_version is None ==> compile_arguments(tc, args).skip(1) == args,
{
    match tc.compiler_version {
        Some(v) => {
            assert(compile_arguments(tc, args).skip(2) =~= args);
        },
        None => {
            assert(compile_arguments(tc, args).skip(1) =~= args);
        },
    }
}

/// A program that exited is told with its code and its two streams, each as its own; one that a
/// signal ended has the code -1.
pub proof fn law_an_exit_is_told_as_it_was(e: Ended, timeout: nat)
    ensures
        e matches Ended::Exited { code, stdout, stderr } ==> (settled(e@, timeout) matches Ok(out)
            && out.stdout == proc::marked_text(stdout@, stdout.limit() as nat)
            && out.stderr == proc::marked_text(stderr@, stderr.limit() as nat)
            && (code matches Some(c) ==> out.status == c) && (code is None ==> out.status == -1)),
        settled(e@, timeout) is Ok <==> e is Exited,
{
}

/// Whatever else ended a program is an error of its own kind: one that is not there is told apart
/// from every other that could not be started, and one that took too long is told with the time
/// that it had.
pub proof fn law_a_lost_program_is_told_why(e: Ended, timeout: nat)
    ensures
        settled(e@, timeout) == Err::<OutputView, ErrorView>(ErrorView::ToolchainNotFound) <==> (
        e matches Ended::NotStarted(io) && io.kind == IoKind::NotFound),
        e matches Ended::NotStarted(io) ==> io.kind != IoKind::NotFound ==> settled(e@, timeout)
            == Err::<OutputView, ErrorView>(ErrorView::Io(io.kind, io.message@)),
        e matches Ended::Lost(io) ==> settled(e@, timeout) == Err::<OutputView, ErrorView>(
            ErrorView::Io(io.kind, io.message@),
        ),
        settled(e@, timeout) == Err::<OutputView, ErrorView>(ErrorView::Cancelled) <==> e
            is Cancelled,
        e is TimedOut <==> settled(e@, timeout) == Err::<OutputView, ErrorView>(
            ErrorView::Timeout(timeout),
        ),
{
}

/// Every exit code but zero is a failure. It is told with the command line, the code and what the
/// program wrote to its error stream. Where the code is zero the output is handed on as it is.
pub proof fn law_failures_are_reported_in_full(bin: Seq<char>, argv: Seq<Seq<char>>, out: Output)
    ensures
        out.status == 0 <==> checked(bin, argv, out@) is Ok,
        out.status == 0 ==> (checked(bin, argv, out@) matches Ok(o) && o.status == 0 && o.stdout
            == out.stdout@ && o.stderr == out.stderr@),
        out.status != 0 ==> checked(bin, argv, out@) == Err::<OutputView, ErrorView>(
            ErrorView::ToolchainFailed {
                cmd: bin + " "@ + text::joined(argv, " "@),
                code: out.status as int,
                stderr: out.stderr@,
            },
        ),
{
}

/// A command line names the program and then its arguments in their order, with a space before
/// each.
pub proof fn law_command_lines_name_every_argument(
    bin: Seq<char>,
    argv: Seq<Seq<char>>,
    arg: Seq<char>,
)
    ensures
        command_text(bin, seq![arg]) == bin + " "@ + arg,
        argv.len() > 0 ==> command_text(bin, argv.push(arg)) == command_text(bin, argv) + " "@ + arg,
{
    text::law_joining_puts_the_separator_between(argv, seq![arg], arg, " "@);
    if argv.len() > 0 {
        assert(argv.push(arg) =~= argv + seq![arg]);
        let j = text::joined(argv, " "@);
        assert(bin + " "@ + (j + " "@ + arg) =~= bin + " "@ + j + " "@ + arg);
    }
}

/// Both streams are shown whole, standard output first; only where both say something is there a
/// line feed between them.
pub proof fn law_both_streams_are_shown(out: Output)
    ensures
        out.stderr@.len() == 0 ==> streams_joined(out@) == out.stdout@,
        out.stdout@.len() == 0 ==> streams_joined(out@) == out.stderr@,
        out.stdout@.len() > 0 && out.stderr@.len() > 0 ==> streams_joined(out@) == out.stdout@
            + seq!['\n'] + out.stderr@,
{
    reveal_strlit("\n");
    assert("\n"@ =~= seq!['\n']);
    if out.stderr@.len() == 0 {
        assert(streams_joined(out@) =~= out.stdout@);
    }
    if out.stdout@.len() == 0 {
        assert(streams_joined(out@) =~= out.stderr@);
    }
}

/// A subcommand is the program with exactly these arguments, bounded as the toolchain is; where
/// the caller was told to stop there is none.
pub proof fn law_subcommands_are_what_was_asked_for(tc: ToolchainView, argv: Seq<Seq<char>>)
    ensures
        unless_cancelled(tc, argv, true) == Err::<CommandView, ErrorView>(ErrorView::Cancelled),
        unless_cancelled(tc, argv, false) matches Ok(c) && c.bin == tc.bin && c.argv == argv
            && c.timeout == tc.timeout && c.output_limit == tc.output_limit,
{
}

/// A command is seen as it is, and so are an output, a text and a failure in its place.
pub proof fn law_commands_are_seen_as_they_are(c: Command, o: Output, s: String, e: CoreError)
    ensures
        c@.bin == c.bin@,
        c@.argv == text::views(c.argv@),
        c@.timeout == c.timeout@,
        c@.output_limit == c.output_limit,
        output_view(Ok(o)) == Ok::<OutputView, ErrorView>(o@),
        output_view(Err(e)) == Err::<OutputView, ErrorView>(e@),
        text_view(Ok(s)) == Ok::<Seq<char>, ErrorView>(s@),
        text_view(Err(e)) == Err::<Seq<char>, ErrorView>(e@),
        command_view(Ok(c)) == Ok::<CommandView, ErrorView>(c@),
        command_view(Err(e)) == Err::<CommandView, ErrorView>(e@),
{
}

} // verus!
