use compact_mcp::analyze::depth::MAX_STRUCTURAL_DEPTH;
use compact_mcp::artifacts::contract_info::ContractInfo;
use compact_mcp::artifacts::{Artifacts, CircuitArtifact};
use compact_mcp::error::CoreError;
use compact_mcp::jobs::TaskStore;
use compact_mcp::json::Json;
use compact_mcp::server::config::{Config, RootChoice, Transport};
use compact_mcp::server::http::{
    allowed_hosts, allowed_origins, bind_guard, declared_too_large,
};
use compact_mcp::server::tasks::{
    list_tasks, result_of_call, rfc3339, task_err, task_payload, to_task, CallOutcome,
    RELATED_TASK_KEY,
};
use compact_mcp::server::tools::{
    analysis_refusal, parse_list, take_apart, up_to_date, zkir_plan,
};
use compact_mcp::server::{CompactMcp, RpcErrorKind};
use compact_mcp::time::Duration;
use compact_mcp::toolchain::compile::{CompileRequest, CompileStep};
use compact_mcp::path::AbsPath;
use compact_mcp::workspace::Entry;
use compact_mcp::{Toolchain, Workspace};

fn ws() -> Workspace {
    Workspace::new("/ws").unwrap()
}

// --- configuration ---

#[test]
fn a_server_is_local_and_harmless_unless_told_otherwise() {
    let c = Config::default();
    assert_eq!(c.transport, Transport::Stdio);
    assert_eq!(c.bind, "127.0.0.1:8080");
    assert!(!c.allow_insecure_bind);
    assert!(!c.allow_toolchain_mutation);
    assert_eq!((c.max_concurrent_builds, c.max_queued_builds), (1, 8));
    assert_eq!((c.compile_timeout, c.default_task_ttl, c.max_task_ttl), (900, 900, 3600));
    assert_eq!(c.compact_bin, "compact");
    assert_eq!(c.compiler_version, None);
    assert_eq!(c.max_http_body_bytes, 4 * compact_mcp::MAX_SOURCE_BYTES);
}

#[test]
fn the_workspace_root_must_be_given_over_http() {
    let mut c = Config::default();
    assert!(matches!(c.resolved_workspace_root(), Ok(RootChoice::CurrentDir)));
    c.transport = Transport::Http;
    assert_eq!(
        c.resolved_workspace_root().unwrap_err(),
        "--workspace-root is required with --transport http"
    );
    c.workspace_root = Some("/ws".to_string());
    assert!(matches!(c.resolved_workspace_root(), Ok(RootChoice::Given(p)) if p == "/ws"));
}

#[test]
fn with_config_wires_compact_bin_and_compiler_version_into_the_compile_argv() {
    let cfg = Config {
        compact_bin: "/opt/stub-compact".to_string(),
        compiler_version: Some("0.42.0".to_string()),
        compile_timeout: 30,
        default_task_ttl: 60,
        max_task_ttl: 120,
        max_concurrent_builds: 3,
        ..Config::default()
    };
    let mut server = CompactMcp::new(ws()).with_config(&cfg);
    let req = CompileRequest {
        source: AbsPath::parse("/ws/c.compact").unwrap(),
        target_dir: AbsPath::parse("/ws/out").unwrap(),
        skip_zk: true,
        no_communications_commitment: false,
        source_root: None,
    };
    let check = server.toolchain.compile(&req, false, server.compile_timeout).unwrap();
    match check.step(Entry::Real) {
        CompileStep::Run(run) => {
            let command = run.command();
            assert_eq!(command.bin, "/opt/stub-compact");
            assert!(command.argv.iter().any(|a| a == "compile"));
            assert!(command.argv.iter().any(|a| a == "+0.42.0"));
            assert_eq!(command.timeout, Duration::from_secs(30));
        }
        other => panic!("got {other:?}"),
    }
    assert_eq!(server.gate.slots(), 3);
    let (_, ttl) = server.tasks.create(None, 0);
    assert_eq!(ttl, Duration::from_secs(60));
    let (_, ttl) = server.tasks.create(Some(Duration::from_secs(500)), 0);
    assert_eq!(ttl, Duration::from_secs(120));
}

#[test]
fn http_does_not_advertise_tasks_list_but_stdio_does() {
    assert!(CompactMcp::new(ws()).advertise_task_list);
    assert!(!CompactMcp::new_http(ws()).advertise_task_list);
    let configured = CompactMcp::new_http(ws()).with_config(&Config::default());
    assert!(!configured.advertise_task_list);
}

#[test]
fn http_refuses_list_tasks_at_the_method_level_not_just_the_advertisement() {
    let stdio = CompactMcp::new(ws());
    assert!(list_tasks(&stdio.tasks, stdio.advertise_task_list).is_ok());
    let http = CompactMcp::new_http(ws());
    let err = list_tasks(&http.tasks, http.advertise_task_list).unwrap_err();
    assert_eq!(err.kind, RpcErrorKind::MethodNotFound);
    assert_eq!(err.message, "tasks/list");
}

#[test]
fn compilers_are_installed_and_removed_only_where_that_was_asked_for() {
    let plain = CompactMcp::with_toolchain(ws(), Toolchain::new("x", None));
    assert_eq!(plain.tools().len(), 13);
    assert!(!plain.tools().iter().any(|t| t == "toolchain_clean"));
    let still = plain.with_toolchain_mutation(false);
    assert!(!still.tools().iter().any(|t| t == "toolchain_update"));
    let open = still.with_toolchain_mutation(true);
    assert!(open.tools().iter().any(|t| t == "toolchain_update"));
    assert!(open.tools().iter().any(|t| t == "toolchain_clean"));
}

// --- HTTP ---

#[test]
fn loopback_binds_without_a_flag() {
    assert!(bind_guard("127.0.0.1:8080", true, false).is_ok());
    assert!(bind_guard("[::1]:8080", true, false).is_ok());
}

#[test]
fn a_public_bind_is_refused_without_the_flag() {
    let err = bind_guard("0.0.0.0:8080", false, false).unwrap_err();
    assert!(err.contains("--allow-insecure-bind"));
    assert!(err.starts_with("refusing to bind 0.0.0.0:8080: "));
    assert!(bind_guard("0.0.0.0:8080", false, true).is_ok());
}

#[test]
fn a_local_server_answers_only_to_its_own_port() {
    assert_eq!(
        allowed_origins(8080),
        vec!["http://127.0.0.1:8080", "http://localhost:8080"]
    );
    assert_eq!(
        allowed_hosts("127.0.0.1:8080", 8080, true, false).unwrap(),
        vec!["127.0.0.1:8080", "localhost:8080"]
    );
    assert!(allowed_hosts("127.0.0.1:8080", 8080, true, true).is_some());
    assert!(allowed_hosts("0.0.0.0:8080", 8080, false, true).is_none());
}

#[test]
fn a_body_that_says_it_is_too_large_is_refused_unread() {
    assert!(declared_too_large(Some("101"), 100));
    assert!(!declared_too_large(Some("100"), 100));
    assert!(declared_too_large(Some("+101"), 100));
    assert!(!declared_too_large(None, 100));
    assert!(!declared_too_large(Some("many"), 100));
    assert!(!declared_too_large(Some("-1"), 100));
    assert!(!declared_too_large(Some(""), 100));
    // More than a machine word is no length; such a body is cut off while it is read.
    assert!(!declared_too_large(Some("99999999999999999999999"), 100));
    assert!(declared_too_large(Some("18446744073709551615"), 100));
}

// --- the toolchain's lists ---

#[test]
fn parses_the_marked_current_version() {
    let s = "compact: available versions\n\n\u{2192} 0.31.1 - x86_macos, aarch64_macos\n  0.31.0 - x86_linux\n";
    let v = parse_list(s);
    assert_eq!(v.len(), 2);
    assert_eq!(v[0].version, "0.31.1");
    assert!(v[0].marked);
    assert_eq!(v[0].platforms[1], "aarch64_macos");
    assert!(!v[1].marked);
}

#[test]
fn a_digit_leading_non_version_line_is_not_fabricated() {
    let v = parse_list("2024 - Copyright Notice\n");
    assert!(v.is_empty(), "fabricated a version from a banner: {v:?}");
}

#[test]
fn a_real_version_with_no_platform_suffix_is_kept() {
    let v = parse_list("\u{2192} 0.31.1\n");
    assert_eq!(v.len(), 1);
    assert_eq!(v[0].version, "0.31.1");
    assert!(v[0].marked);
    assert!(v[0].platforms.is_empty());
}

#[test]
fn a_list_line_is_taken_apart_at_its_first_hyphen() {
    let l = take_apart("  \u{2192}\u{2192}  a - b -  c , ,d ");
    assert_eq!(l.version, "a");
    assert_eq!(l.platforms, vec!["b -  c", "", "d"]);
    assert!(l.marked);
    let l = take_apart("x -");
    assert_eq!(l.version, "x -");
    assert!(l.platforms.is_empty());
    assert_eq!(take_apart("").version, "");
}

#[test]
fn being_up_to_date_is_read_from_the_output() {
    assert!(up_to_date("compact: Up to date - 0.31.1\n"));
    assert!(!up_to_date("compact: up to date"));
    assert!(!up_to_date(""));
}

#[test]
fn ast_symbols_and_stats_flag_over_depth_refusal() {
    let deep = format!("x{}", "()".repeat(2000));
    let m = analysis_refusal(&deep).unwrap();
    assert!(m.contains("structural depth"), "{m}");
    assert!(m.contains(&MAX_STRUCTURAL_DEPTH.to_string()), "{m}");
    assert_eq!(analysis_refusal("ledger x: Counter;"), None);
}

// --- circuits ---

fn scanned(circuits: Vec<(&str, bool, bool)>) -> Artifacts {
    Artifacts {
        contract_info: ContractInfo {
            compiler_version: "".to_string(),
            language_version: "".to_string(),
            runtime_version: "".to_string(),
            circuits: vec![],
            witnesses: vec![],
            contracts: vec![],
            ledger: vec![],
        },
        proving_keys: false,
        files: vec![],
        circuits: circuits
            .into_iter()
            .map(|(name, proof, has)| CircuitArtifact {
                name: name.to_string(),
                proof,
                zkir: if has { Some(format!("zkir/{name}.zkir")) } else { None },
                bzkir: None,
                prover_key: None,
                verifier_key: None,
            })
            .collect(),
    }
}

#[test]
fn zkir_stats_tool_unknown_circuit_lists_available() {
    let a = scanned(vec![("increment", true, true), ("re\"veal", false, false)]);
    let err = zkir_plan(&a, Some("ghost"), "build").unwrap_err();
    assert_eq!(
        err.message(),
        "invalid arguments: no circuit named \"ghost\" in build; available: [\"increment\", \"re\\\"veal\"]"
    );
    let err = zkir_plan(&scanned(vec![]), Some("ghost"), "build").unwrap_err();
    assert!(err.message().ends_with("available: []"));
}

#[test]
fn zkir_stats_tool_reports_stats_and_absent() {
    let a = scanned(vec![("increment", true, true), ("reveal", false, false)]);
    let plan = zkir_plan(&a, None, "build").unwrap();
    assert_eq!(
        plan.wanted,
        vec![("increment".to_string(), "zkir/increment.zkir".to_string())]
    );
    assert_eq!(plan.absent.len(), 1);
    assert_eq!(plan.absent[0].circuit, "reveal");
    assert!(!plan.absent[0].proof);
    assert_eq!(plan.absent[0].reason, "proof:false \u{2014} no zkir emitted");
    let one = zkir_plan(&a, Some("increment"), "build").unwrap();
    assert_eq!(one.wanted.len(), 1);
    assert!(one.absent.is_empty());
    assert!(zkir_plan(&scanned(vec![]), None, "build").unwrap().wanted.is_empty());
}

#[test]
fn zkir_stats_tool_reports_proof_true_missing_zkir_honestly() {
    let a = scanned(vec![("increment", true, false)]);
    let plan = zkir_plan(&a, None, "build").unwrap();
    assert!(plan.absent[0].reason.contains("build may be incomplete"));
}

// --- tasks ---

const SECOND: i128 = 1_000_000_000;

fn store() -> TaskStore {
    TaskStore::new(Duration::from_secs(900), Duration::from_secs(3600))
}

#[test]
fn an_unknown_task_id_is_invalid_params() {
    let err = task_err(store().get("nope").unwrap_err());
    assert_eq!(err.kind, RpcErrorKind::InvalidParams);
    assert_eq!(err.message, "task not found: nope");
    assert_eq!(task_err(CoreError::Cancelled).kind, RpcErrorKind::Internal);
}

#[test]
fn cancelling_a_terminal_task_is_rejected() {
    let mut s = store();
    s.create_with_id("t", None, 0);
    s.finish("t", Json::Null, false, 1);
    let err = task_err(s.cancel("t", 2).unwrap_err());
    assert_eq!(err.kind, RpcErrorKind::InvalidParams);
}

#[test]
fn a_task_is_told_with_its_times_and_its_actual_window() {
    let mut s = store();
    s.create_with_id("t", Some(Duration::from_secs(999_999)), 1_700_000_000 * SECOND + 5);
    s.set_status("t", "running", 1_700_000_001 * SECOND);
    let t = to_task(&s.get("t").unwrap()).unwrap();
    assert_eq!(t.task_id, "t");
    assert_eq!(t.created_at, "2023-11-14T22:13:20.000000005+00:00");
    assert_eq!(t.last_updated_at, "2023-11-14T22:13:21+00:00");
    assert_eq!(t.ttl_ms, 3_600_000);
    assert_eq!(t.poll_interval_ms, 2_000);
    assert_eq!(t.status_message.as_deref(), Some("running"));
}

#[test]
fn moments_are_written_as_the_calendar_writes_them() {
    let epoch = std::time::SystemTime::UNIX_EPOCH;
    for (secs, nanos) in [(0u64, 0u32), (1, 1), (253_402_300_799, 999_999_999), (86_399, 500_000_000)] {
        let at = epoch + std::time::Duration::new(secs, nanos);
        assert_eq!(
            rfc3339(secs as i128 * SECOND + nanos as i128).unwrap(),
            chrono::DateTime::<chrono::Utc>::from(at).to_rfc3339()
        );
    }
    let before = epoch - std::time::Duration::new(1, 500_000_000);
    assert_eq!(
        rfc3339(-(SECOND + SECOND / 2)).unwrap(),
        chrono::DateTime::<chrono::Utc>::from(before).to_rfc3339()
    );
    assert_eq!(rfc3339(i128::MAX), None);
    assert_eq!(rfc3339(i128::MIN), None);
    assert_eq!(rfc3339(i64::MAX as i128 * SECOND), None);
}

#[test]
fn an_error_in_the_answer_fails_the_task() {
    let (v, failed) = result_of_call(CallOutcome::Answered {
        result: Json::string("x"),
        is_error: true,
    });
    assert_eq!(v.as_str(), Some("x"));
    assert!(failed);
    let (_, failed) = result_of_call(CallOutcome::Answered {
        result: Json::Null,
        is_error: false,
    });
    assert!(!failed);
    let (v, failed) = result_of_call(CallOutcome::Refused("bad".to_string()));
    assert_eq!(v.get("error").unwrap().as_str(), Some("bad"));
    assert!(failed);
}

fn task_of(v: &Json) -> Option<&str> {
    v.get("_meta")?.get(RELATED_TASK_KEY)?.get("taskId")?.as_str()
}

#[test]
fn a_result_tells_which_task_it_belongs_to() {
    let v = task_payload(None, "t1");
    assert!(matches!(v.get("cancelled"), Some(Json::Bool(true))));
    assert_eq!(task_of(&v), Some("t1"));

    let kept = Json::Object(vec![
        ("_meta".to_string(), Json::Object(vec![("a".to_string(), Json::uint(1))])),
        ("content".to_string(), Json::string("c")),
    ]);
    let v = task_payload(Some(kept), "t2");
    assert_eq!(task_of(&v), Some("t2"));
    assert_eq!(v.get("_meta").unwrap().get("a").unwrap().as_u64(), Some(1));
    assert_eq!(v.get("content").unwrap().as_str(), Some("c"));

    assert_eq!(task_payload(Some(Json::string("plain")), "t3").as_str(), Some("plain"));
}

#[test]
fn tasks_are_listed_in_the_order_of_their_ids() {
    let mut s = store();
    for id in ["b", "a", "c", "ab"] {
        s.create_with_id(id, None, 0);
    }
    let ids: Vec<String> = list_tasks(&s, true).unwrap().into_iter().map(|t| t.id).collect();
    assert_eq!(ids, vec!["a", "ab", "b", "c"]);
}
