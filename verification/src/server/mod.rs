//! The server: what its tools decide, and how it is set up.

use vstd::prelude::*;

use crate::error::{CoreError, ErrorView};
use crate::jobs::gate::{Admission, BuildGate, GateEvent, GateView};
use crate::jobs::gate;
use crate::jobs::{TaskStore, Tasks};
use crate::text;
use crate::time::Duration;
use crate::toolchain::{Toolchain, ToolchainView, DEFAULT_OUTPUT_LIMIT};
use crate::workspace::Workspace;

pub mod config;
pub mod http;
pub mod input;
pub mod prepare;
pub mod tasks;
pub mod tools;

use config::Config;

verus! {

broadcast use vstd::string::group_string_axioms;

/// What is wrong with a request, as the protocol tells it.
#[derive(Debug, Clone, Copy, PartialEq, Eq, Structural)]
pub enum RpcErrorKind {
    InvalidParams,
    Internal,
    MethodNotFound,
}

/// The refusal of a request. What goes wrong once a request is understood is no refusal: it is
/// told in the answer.
#[derive(Debug)]
pub struct RpcError {
    pub kind: RpcErrorKind,
    pub message: String,
}

/// What an [`RpcError`] says.
pub struct RpcErrorView {
    pub kind: RpcErrorKind,
    pub message: Seq<char>,
}

impl View for RpcError {
    type V = RpcErrorView;

    open spec fn view(&self) -> RpcErrorView {
        RpcErrorView { kind: self.kind, message: self.message@ }
    }
}

/// The refusal of a request whose parameters are wrong.
pub open spec fn invalid_params(message: Seq<char>) -> RpcErrorView {
    RpcErrorView { kind: RpcErrorKind::InvalidParams, message }
}

/// A server: the workspace it works in and what it is set to.
#[derive(Debug)]
pub struct CompactMcp {
    pub workspace: Workspace,
    pub toolchain: Toolchain,
    pub tasks: TaskStore,
    pub gate: BuildGate,
    pub compile_timeout: Duration,
    /// Whether clients may list the tasks. An HTTP client cannot be told from another, so it
    /// may not.
    pub advertise_task_list: bool,
    /// Whether the tools that install and remove compilers are offered.
    pub toolchain_mutation: bool,
}

/// What a [`CompactMcp`] is set to.
pub struct ServerView {
    pub root: Seq<Seq<char>>,
    pub toolchain: ToolchainView,
    pub tasks: Tasks,
    pub default_ttl: nat,
    pub max_ttl: nat,
    pub gate: GateView,
    pub compile_timeout: nat,
    pub advertise_task_list: bool,
    pub toolchain_mutation: bool,
}

impl View for CompactMcp {
    type V = ServerView;

    open spec fn view(&self) -> ServerView {
        ServerView {
            root: self.workspace@,
            toolchain: self.toolchain@,
            tasks: self.tasks@,
            default_ttl: self.tasks.default_ttl(),
            max_ttl: self.tasks.max_ttl(),
            gate: self.gate@,
            compile_timeout: self.compile_timeout@,
            advertise_task_list: self.advertise_task_list,
            toolchain_mutation: self.toolchain_mutation,
        }
    }
}

/// A number of seconds in nanoseconds.
pub open spec fn seconds(n: nat) -> nat {
    n * 1_000_000_000
}

/// What a new handle to the program `bin` is set to.
pub open spec fn new_toolchain(bin: Seq<char>, pin: Option<Seq<char>>) -> ToolchainView {
    ToolchainView {
        bin,
        compiler_version: pin,
        timeout: seconds(300),
        output_limit: DEFAULT_OUTPUT_LIMIT,
    }
}

/// A server with nothing configured.
pub open spec fn new_server(root: Seq<Seq<char>>, toolchain: ToolchainView) -> ServerView {
    ServerView {
        root,
        toolchain,
        tasks: Tasks::empty(),
        default_ttl: seconds(900),
        max_ttl: seconds(3600),
        gate: gate::new_gate(1, 8),
        compile_timeout: seconds(900),
        advertise_task_list: true,
        toolchain_mutation: false,
    }
}

/// A server with a configuration applied.
pub open spec fn configured(s: ServerView, c: Config) -> ServerView {
    ServerView {
        toolchain: new_toolchain(c.compact_bin@, text::opt_view(c.compiler_version)),
        tasks: Tasks::empty(),
        default_ttl: seconds(c.default_task_ttl as nat),
        max_ttl: seconds(c.max_task_ttl as nat),
        gate: gate::new_gate(c.max_concurrent_builds as nat, c.max_queued_builds as nat),
        compile_timeout: seconds(c.compile_timeout as nat),
        ..s
    }
}

impl CompactMcp {
    /// A server for the `compact` program on the search path.
    pub fn new(workspace: Workspace) -> (r: CompactMcp)
        ensures
            r@ == new_server(workspace@, new_toolchain("compact"@, None)),
    {
        CompactMcp::with_toolchain(workspace, Toolchain::new("compact", None))
    }

    /// A server for this toolchain.
    pub fn with_toolchain(workspace: Workspace, toolchain: Toolchain) -> (r: CompactMcp)
        ensures
            r@ == new_server(workspace@, toolchain@),
    {
        CompactMcp {
            workspace,
            toolchain,
            tasks: TaskStore::new(Duration::from_secs(900), Duration::from_secs(3600)),
            gate: BuildGate::new(1, 8),
            compile_timeout: Duration::from_secs(900),
            advertise_task_list: true,
            toolchain_mutation: false,
        }
    }

    /// The same with a configuration applied: the program and its pin, the retention windows,
    /// the build limits and the time a compile may take.
    pub fn with_config(self, c: &Config) -> (r: CompactMcp)
        ensures
            r@ == configured(self@, *c),
    {
        let CompactMcp {
            workspace,
            toolchain: _,
            tasks: _,
            gate: _,
            compile_timeout: _,
            advertise_task_list,
            toolchain_mutation,
        } = self;
        CompactMcp {
            workspace,
            toolchain: Toolchain::new(
                c.compact_bin.as_str(),
                text::clone_opt(&c.compiler_version),
            ),
            tasks: TaskStore::new(
                Duration::from_secs(c.default_task_ttl),
                Duration::from_secs(c.max_task_ttl),
            ),
            gate: BuildGate::new(c.max_concurrent_builds, c.max_queued_builds),
            compile_timeout: Duration::from_secs(c.compile_timeout),
            advertise_task_list,
            toolchain_mutation,
        }
    }

    /// The same, where clients may list the tasks or may not.
    pub fn with_advertise_task_list(self, advertise: bool) -> (r: CompactMcp)
        ensures
            r@ == (ServerView { advertise_task_list: advertise, ..self@ }),
    {
        let mut s = self;
        s.advertise_task_list = advertise;
        s
    }

    /// A server for the HTTP transport.
    pub fn new_http(workspace: Workspace) -> (r: CompactMcp)
        ensures
            r@ == (ServerView {
                advertise_task_list: false,
                ..new_server(workspace@, new_toolchain("compact"@, None))
            }),
    {
        CompactMcp::new(workspace).with_advertise_task_list(false)
    }

    /// The same, with the tools that install and remove compilers where that is allowed.
    pub fn with_toolchain_mutation(self, allow: bool) -> (r: CompactMcp)
        ensures
            r@ == (ServerView {
                toolchain_mutation: self@.toolchain_mutation || allow,
                ..self@
            }),
    {
        let mut s = self;
        if allow {
            s.toolchain_mutation = true;
        }
        s
    }

    /// The tools that are offered.
    pub fn tools(&self) -> (r: Vec<String>)
        ensures
            text::views(r@) == offered(self@),
    {
        let mut out: Vec<String> = Vec::new();
        out.push("diagnostics".to_owned());
        out.push("ast".to_owned());
        out.push("symbols".to_owned());
        out.push("stats".to_owned());
        out.push("versions".to_owned());
        out.push("toolchain_list".to_owned());
        out.push("toolchain_check".to_owned());
        out.push("format".to_owned());
        out.push("fixup".to_owned());
        out.push("compile".to_owned());
        out.push("artifacts".to_owned());
        out.push("zkir_stats".to_owned());
        out.push("witness_scaffold".to_owned());
        assert(text::views(out@) =~= harmless_tools());
        if self.toolchain_mutation {
            out.push("toolchain_update".to_owned());
            out.push("toolchain_clean".to_owned());
            assert(text::views(out@) =~= harmless_tools() + mutating_tools());
        }
        out
    }
}

/// The tools that every server offers.
pub open spec fn harmless_tools() -> Seq<Seq<char>> {
    seq![
        "diagnostics"@,
        "ast"@,
        "symbols"@,
        "stats"@,
        "versions"@,
        "toolchain_list"@,
        "toolchain_check"@,
        "format"@,
        "fixup"@,
        "compile"@,
        "artifacts"@,
        "zkir_stats"@,
        "witness_scaffold"@,
    ]
}

/// The tools that install and remove compilers.
pub open spec fn mutating_tools() -> Seq<Seq<char>> {
    seq!["toolchain_update"@, "toolchain_clean"@]
}

/// The tools that a server offers.
pub open spec fn offered(s: ServerView) -> Seq<Seq<char>> {
    if s.toolchain_mutation {
        harmless_tools() + mutating_tools()
    } else {
        harmless_tools()
    }
}

/// Whether a subprocess of the program may run, wait or must not: one that was told to stop is
/// not even queued. Every tool that runs the program asks this first, once, whatever it runs.
pub fn acquire_gate(gate: &mut BuildGate, cancelled: bool, slot_free: bool) -> (r: Result<
    Admission,
    CoreError,
>)
    ensures
        cancelled ==> final(gate)@ == old(gate)@ && (r matches Err(e) && e@
            == ErrorView::Cancelled),
        !cancelled ==> final(gate)@ == gate::gate_after(old(gate)@, GateEvent::Arrive(slot_free))
            && match r {
            Ok(a) => gate::admission(old(gate)@, slot_free) == Ok::<Admission, ErrorView>(a),
            Err(e) => gate::admission(old(gate)@, slot_free) == Err::<Admission, ErrorView>(e@),
        },
{
    if cancelled {
        return Err(CoreError::Cancelled);
    }
    gate.acquire(slot_free)
}

/// Nothing a configuration sets is lost: the program it names is the one that is run, with the
/// pin it gives, and the limits are those it gives.
pub proof fn law_configuration_takes_effect(s: ServerView, c: Config)
    ensures
        configured(s, c).toolchain.bin == c.compact_bin@,
        configured(s, c).toolchain.compiler_version == text::opt_view(c.compiler_version),
        configured(s, c).default_ttl == seconds(c.default_task_ttl as nat),
        configured(s, c).max_ttl == seconds(c.max_task_ttl as nat),
        configured(s, c).compile_timeout == seconds(c.compile_timeout as nat),
        configured(s, c).root == s.root,
        configured(s, c).advertise_task_list == s.advertise_task_list,
{
}

/// The tools that install and remove compilers are offered only where that was asked for.
pub proof fn law_mutating_tools_are_opt_in(s: ServerView, tool: Seq<char>)
    requires
        !s.toolchain_mutation,
        mutating_tools().contains(tool),
    ensures
        !offered(s).contains(tool),
{
    reveal_strlit("diagnostics");
    reveal_strlit("ast");
    reveal_strlit("symbols");
    reveal_strlit("stats");
    reveal_strlit("versions");
    reveal_strlit("toolchain_list");
    reveal_strlit("toolchain_check");
    reveal_strlit("format");
    reveal_strlit("fixup");
    reveal_strlit("compile");
    reveal_strlit("artifacts");
    reveal_strlit("zkir_stats");
    reveal_strlit("witness_scaffold");
    reveal_strlit("toolchain_update");
    reveal_strlit("toolchain_clean");
    let all = harmless_tools();
    let k = choose|k: int| 0 <= k < 2 && mutating_tools()[k] == tool;
    assert(tool == "toolchain_update"@ || tool == "toolchain_clean"@);
    assert(tool[10] == 'u' || tool[10] == 'c');
    assert(tool.len() == 16 || tool.len() == 15);
    assert forall|i: int| 0 <= i < all.len() implies all[i] != tool by {
        assert(all[i].len() < 15 || all[i][0] == 'w' || all[i][11] == 'h');
    }
}

/// Every limit of a server that nothing configured is its own: a quarter of an hour for a compile
/// and for what is kept, an hour at most, one build at a time and eight that wait. Tasks are
/// listed, and compilers are neither installed nor removed.
pub proof fn law_an_unconfigured_server(root: Seq<Seq<char>>, toolchain: ToolchainView)
    ensures
        ({
            let s = new_server(root, toolchain);
            &&& s.root == root
            &&& s.toolchain == toolchain
            &&& s.tasks == Tasks::empty()
            &&& s.default_ttl == 900_000_000_000
            &&& s.max_ttl == 3_600_000_000_000
            &&& s.compile_timeout == 900_000_000_000
            &&& s.gate.slots == 1
            &&& s.gate.queued == 0
            &&& s.gate.max_queued == 8
            &&& s.advertise_task_list
            &&& !s.toolchain_mutation
        }),
{
}

/// A configuration decides every limit, a second being a thousand million nanoseconds: how long a
/// compile may take, how long results are kept and how many builds run and wait. It starts with no
/// task, and neither what clients may list nor whether compilers may be removed is its business.
pub proof fn law_a_configuration_sets_every_limit(s: ServerView, c: Config)
    ensures
        ({
            let r = configured(s, c);
            &&& r.root == s.root
            &&& r.toolchain.bin == c.compact_bin@
            &&& r.toolchain.compiler_version == text::opt_view(c.compiler_version)
            &&& r.toolchain.timeout == 300_000_000_000
            &&& r.toolchain.output_limit == 16_777_216
            &&& r.tasks == Tasks::empty()
            &&& r.default_ttl == c.default_task_ttl * 1_000_000_000
            &&& r.max_ttl == c.max_task_ttl * 1_000_000_000
            &&& r.compile_timeout == c.compile_timeout * 1_000_000_000
            &&& c.max_concurrent_builds > 0 ==> r.gate.slots == c.max_concurrent_builds
            &&& c.max_concurrent_builds == 0 ==> r.gate.slots == 1
            &&& r.gate.queued == 0
            &&& r.gate.max_queued == c.max_queued_builds
            &&& r.advertise_task_list == s.advertise_task_list
            &&& r.toolchain_mutation == s.toolchain_mutation
        }),
{
}

/// Thirteen tools are always offered, in this order; the two that install and remove compilers come
/// behind them, and only where that was asked for.
pub proof fn law_tools_are_offered_in_order(s: ServerView)
    ensures
        offered(s).len() == if s.toolchain_mutation {
            15nat
        } else {
            13nat
        },
        offered(s).take(13) == seq![
            "diagnostics"@,
            "ast"@,
            "symbols"@,
            "stats"@,
            "versions"@,
            "toolchain_list"@,
            "toolchain_check"@,
            "format"@,
            "fixup"@,
            "compile"@,
            "artifacts"@,
            "zkir_stats"@,
            "witness_scaffold"@,
        ],
        s.toolchain_mutation ==> offered(s)[13] == "toolchain_update"@ && offered(s)[14]
            == "toolchain_clean"@,
{
}

/// A refusal for wrong parameters says what is wrong, and is told as just that.
pub proof fn law_wrong_parameters_are_told(e: RpcError, message: Seq<char>)
    requires
        e@ == invalid_params(message),
    ensures
        e.kind == RpcErrorKind::InvalidParams,
        e.message@ == message,
{
}

/// A server is seen as it is set, each setting under its own name.
pub proof fn law_servers_are_seen_as_they_are(s: CompactMcp)
    ensures
        s@.root == s.workspace@,
        s@.toolchain == s.toolchain@,
        s@.tasks == s.tasks@,
        s@.default_ttl == s.tasks.default_ttl(),
        s@.max_ttl == s.tasks.max_ttl(),
        s@.gate == s.gate@,
        s@.compile_timeout == s.compile_timeout@,
        s@.advertise_task_list == s.advertise_task_list,
        s@.toolchain_mutation == s.toolchain_mutation,
{
}

} // verus!
