use compact_mcp::error::{CoreError, IoError, IoKind};
use compact_mcp::path::AbsPath;
use compact_mcp::time::Duration;
use compact_mcp::toolchain::compile::{CompileRequest, CompileRun, CompileStep};
use compact_mcp::toolchain::parse_diag::parse_compactc_output;
use compact_mcp::toolchain::proc::{
    group_to_reap, lossy_with_marker, CappedBuffer, KillGroupOnDrop,
};
use compact_mcp::toolchain::versions::{
    skew_for, skew_of, VersionStep, COMPACTP_VERSION,
};
use compact_mcp::toolchain::{joined_output, Command, Ended, Output};
use compact_mcp::workspace::Entry;
use compact_mcp::{Severity, Source, Toolchain};

fn args(words: &[&str]) -> Vec<String> {
    words.iter().map(|w| w.to_string()).collect()
}

fn captured(text: &str, limit: usize) -> CappedBuffer {
    let mut b = CappedBuffer::new(limit);
    b.push(&text.as_bytes().to_vec());
    b
}

fn exited(code: Option<i32>, stdout: &str, stderr: &str) -> Ended {
    Ended::Exited {
        code,
        stdout: captured(stdout, 1 << 20),
        stderr: captured(stderr, 1 << 20),
    }
}

fn output(status: i32, stdout: &str, stderr: &str) -> Output {
    Output { status, stdout: stdout.to_string(), stderr: stderr.to_string() }
}

fn failed(kind: IoKind) -> IoError {
    IoError { kind, message: "no".to_string() }
}

// --- errors ---

#[test]
fn path_escape_message_names_the_path() {
    let e = CoreError::PathEscape("/etc/passwd".to_string());
    assert_eq!(e.message(), "path escapes workspace root: /etc/passwd");
}

#[test]
fn toolchain_failed_reports_exit_code() {
    let e = CoreError::ToolchainFailed {
        cmd: "compact compile".into(),
        code: 255,
        stderr: "boom".into(),
    };
    assert!(e.message().contains("255"));
    assert_eq!(e.message(), "`compact compile` failed with exit code 255: boom");
}

#[test]
fn every_error_says_what_happened() {
    assert_eq!(
        CoreError::Io(IoError { kind: IoKind::Other, message: "disk full".into() }).message(),
        "io error: disk full"
    );
    assert_eq!(CoreError::ToolchainNotFound.message(), "`compact` CLI not found on PATH");
    assert_eq!(
        CoreError::InvalidArgs("nope".into()).message(),
        "invalid arguments: nope"
    );
    assert_eq!(
        CoreError::ArtifactMissing("/t/x".into()).message(),
        "artifact missing: /t/x"
    );
    assert_eq!(
        CoreError::Timeout(Duration::from_secs(300)).message(),
        "operation timed out after 300s"
    );
    assert_eq!(
        CoreError::Timeout(Duration::from_millis(1500)).message(),
        format!(
            "operation timed out after {:?}",
            std::time::Duration::from_millis(1500)
        )
    );
    assert_eq!(CoreError::Cancelled.message(), "operation cancelled");
    assert_eq!(CoreError::QueueFull(8).message(), "build queue is full (max 8)");
    assert_eq!(CoreError::TaskNotFound("t1".into()).message(), "task not found: t1");
    assert_eq!(
        CoreError::TaskTerminal("t1".into()).message(),
        "task t1 is already in a terminal state"
    );
    assert_eq!(
        CoreError::ToolchainFailed { cmd: "c".into(), code: -1, stderr: "s".into() }.message(),
        "`c` failed with exit code -1: s"
    );
}

// --- the compiler's error output ---

#[test]
fn parses_an_unbound_identifier_error() {
    let s = "Exception: broken.compact line 7 char 10: unbound identifier undefined_thing\n";
    let d = parse_compactc_output(s);
    assert_eq!(d.len(), 1);
    assert_eq!(d[0].source, Source::Compactc);
    assert_eq!(d[0].severity, Severity::Error);
    assert_eq!(d[0].file.as_deref(), Some("broken.compact"));
    assert_eq!(d[0].message, "unbound identifier undefined_thing");
    let span = d[0].span.as_ref().unwrap();
    assert_eq!(span.start.line, 7);
    assert_eq!(span.start.column, 10);
    assert_eq!(span.start.offset, None, "compactc gives no byte offsets");
    assert!(!d[0].raw);
}

#[test]
fn message_may_contain_colons_and_quotes() {
    let s = r#"Exception: syntax_err.compact line 3 char 3: parse error: found keyword "let" (which is reserved for future use) looking for a statement or "}""#;
    let d = parse_compactc_output(s);
    assert_eq!(d.len(), 1);
    assert!(d[0].message.starts_with("parse error: found keyword"));
    assert!(d[0].message.ends_with(r#"or "}""#));
}

#[test]
fn unrecognised_output_is_returned_raw_never_dropped() {
    let s = "zkir: something went sideways\nand another line";
    let d = parse_compactc_output(s);
    assert_eq!(d.len(), 1);
    assert!(d[0].raw);
    assert_eq!(d[0].source, Source::Compactc);
    assert!(d[0].message.contains("something went sideways"));
    assert!(d[0].span.is_none());
}

#[test]
fn empty_output_yields_no_diagnostics() {
    assert!(parse_compactc_output("   \n ").is_empty());
}

#[test]
fn a_path_with_the_word_line_in_it_is_read_whole() {
    let d = parse_compactc_output("Exception: the line 9 file.compact line 2 char 3: bad\r\n");
    assert_eq!(d.len(), 1);
    assert_eq!(d[0].message, "bad");
    assert_eq!(d[0].file.as_deref(), Some("the line 9 file.compact"));
    let start = d[0].span.as_ref().unwrap().start;
    assert_eq!((start.line, start.column), (2, 3));
}

#[test]
fn a_coordinate_that_is_no_number_of_the_machine_counts_as_one() {
    let d = parse_compactc_output("Exception: a line 99999999999 char 4294967295: m");
    let start = d[0].span.as_ref().unwrap().start;
    assert_eq!((start.line, start.column), (1, 4294967295));
    // Digits of another script match as digits and are no number.
    let d = parse_compactc_output("Exception: a line \u{0663} char \u{0664}: m");
    assert_eq!(d.len(), 1);
    assert!(!d[0].raw);
    let start = d[0].span.as_ref().unwrap().start;
    assert_eq!((start.line, start.column), (1, 1));
}

#[test]
fn error_lines_are_read_as_the_regular_expression_reads_them() {
    let re = regex::Regex::new(r"^Exception: (.+?) line (\d+) char (\d+): (.*)$").unwrap();
    let samples = [
        "Exception: a line 1 char 2: m",
        "Exception:  line 1 char 2: m",
        "Exception:  x line 1 char 2: m",
        "Exception: a line 1 char 2:m",
        "Exception: a line 1 char 2: ",
        "Exception: a line  1 char 2: m",
        "Exception: a line x line 1 char 2: m line 3 char 4: n",
        "Exception: a line 1 char 2 line 3 char 4: n",
        "exception: a line 1 char 2: m",
        " Exception: a line 1 char 2: m",
        "Exception: a",
        "Exception: ",
        "Exception: \u{1F600} line 12 char 34: \u{1F600}: x",
        "Exception: a line 1\u{0661} char 2: m",
        "Exception: a line 1\u{00B2} char 2: m",
    ];
    for s in samples {
        let d = parse_compactc_output(s);
        match re.captures(s.trim_end()) {
            Some(c) => {
                assert_eq!(d.len(), 1, "{s:?}");
                assert!(!d[0].raw, "{s:?}");
                assert_eq!(d[0].file.as_deref(), Some(&c[1]), "{s:?}");
                let start = d[0].span.as_ref().unwrap().start;
                assert_eq!(start.line, c[2].parse().unwrap_or(1), "{s:?}");
                assert_eq!(start.column, c[3].parse().unwrap_or(1), "{s:?}");
                assert_eq!(d[0].message, &c[4], "{s:?}");
            }
            None => {
                assert_eq!(d.len(), 1, "{s:?}");
                assert!(d[0].raw, "{s:?}");
                assert_eq!(d[0].message, s.trim(), "{s:?}");
            }
        }
    }
}

#[test]
fn lines_around_an_error_line_are_kept() {
    let d = parse_compactc_output("compiling\n\nException: a line 1 char 2: m\n  bye\n");
    assert_eq!(d.len(), 2);
    assert_eq!(d[0].message, "m");
    assert!(!d[0].raw);
    assert_eq!(d[1].message, "compiling\n  bye");
    assert!(d[1].raw);
    assert!(d[1].span.is_none());

    let d = parse_compactc_output(
        "warning: shadowed name\nException: a.compact line 1 char 2: boom\n",
    );
    assert!(d.iter().any(|d| !d.raw && d.message == "boom"));
    assert!(d.iter().any(|d| d.raw && d.message.contains("warning: shadowed name")));
}

// --- captured output ---

#[test]
fn what_is_captured_does_not_depend_on_the_chunks() {
    let whole: Vec<u8> = (0u8..=99).collect();
    for limit in [0usize, 1, 50, 99, 100, 101] {
        for step in [1usize, 7, 100] {
            let mut b = CappedBuffer::new(limit);
            for c in whole.chunks(step) {
                b.push(&c.to_vec());
            }
            let kept = limit.min(whole.len());
            assert_eq!(b.bytes(), &whole[..kept].to_vec());
            assert_eq!(b.truncated(), whole.len() > limit);
        }
    }
}

#[test]
fn run_caps_subprocess_output_instead_of_buffering_it_whole() {
    let command = Toolchain::new("sh", None)
        .with_output_limit(64)
        .run(&args(&["-c", "yes abcdefgh | head -c 200000"]), false)
        .unwrap();
    assert_eq!(command.output_limit, 64);
    let text = "abcdefgh\n".repeat(22223);
    let out = command
        .settle(Ended::Exited {
            code: Some(0),
            stdout: captured(&text, command.output_limit),
            stderr: captured("", command.output_limit),
        })
        .unwrap();
    assert_eq!(out.status, 0);
    assert!(
        out.stdout.len() < 4096,
        "captured stdout must be capped near the 64-byte limit, got {} bytes",
        out.stdout.len()
    );
    assert!(
        out.stdout.contains("truncated"),
        "a truncated capture must carry the marker, got {:?}",
        out.stdout
    );
    assert!(out.stdout.starts_with(&text[..64]));
}

#[test]
fn run_does_not_mark_within_limit_output_as_truncated() {
    let command = Toolchain::new("echo", None)
        .with_output_limit(64)
        .run(&args(&["hello"]), false)
        .unwrap();
    let out = command
        .settle(Ended::Exited {
            code: Some(0),
            stdout: captured("hello\n", command.output_limit),
            stderr: captured("", command.output_limit),
        })
        .unwrap();
    assert_eq!(out.stdout.trim(), "hello");
    assert!(!out.stdout.contains("truncated"), "got {:?}", out.stdout);
}

#[test]
fn bytes_that_are_no_text_are_replaced_not_refused() {
    assert_eq!(lossy_with_marker(&vec![b'a', 0xff, b'b'], false, 10), "a\u{FFFD}b");
    assert_eq!(lossy_with_marker(&"h\u{e9}".as_bytes().to_vec(), false, 10), "h\u{e9}");
    assert_eq!(
        lossy_with_marker(&b"abc".to_vec(), true, 3),
        "abc\n[output truncated at 3 bytes]"
    );
}

#[test]
fn an_unknown_process_is_never_signalled() {
    assert_eq!(group_to_reap(0), None);
    assert_eq!(group_to_reap(42), Some(42));
    let mut g = KillGroupOnDrop::new(42);
    assert_eq!(g.target(), Some(42));
    g.disarm();
    assert_eq!(g.target(), None);
    assert_eq!(KillGroupOnDrop::new(0).target(), None);
}

// --- running the program ---

#[test]
fn compile_argv_places_the_pin_first_and_is_the_error_source_of_truth() {
    let tc = Toolchain::new("compact", None);
    assert_eq!(
        tc.compile_argv(&args(&["--version"])),
        vec!["compile", "--version"]
    );

    let pinned = Toolchain::new("compact", Some("0.31.0".to_string()));
    assert_eq!(
        pinned.compile_argv(&args(&["--language-version"])),
        vec!["compile", "+0.31.0", "--language-version"]
    );
}

#[test]
fn run_times_out_instead_of_hanging() {
    let tc = Toolchain::new("sleep", None).with_timeout(Duration::from_millis(200));
    let command = tc.run(&args(&["30"]), false).unwrap();
    assert_eq!(command.timeout.as_millis(), 200);
    assert_eq!(command.reap_after(&Ended::TimedOut, 7), Some(7));
    let err = command.settle(Ended::TimedOut).unwrap_err();
    assert!(matches!(err, CoreError::Timeout(_)), "got {err:?}");
    assert_eq!(err.message(), "operation timed out after 200ms");
}

#[test]
fn run_cancels_a_running_child() {
    let command = Toolchain::new("sleep", None).run(&args(&["30"]), false).unwrap();
    assert_eq!(command.reap_after(&Ended::Cancelled, 7), Some(7));
    assert_eq!(command.reap_after(&Ended::Cancelled, 0), None);
    let err = command.settle(Ended::Cancelled).unwrap_err();
    assert!(matches!(err, CoreError::Cancelled), "got {err:?}");
}

#[test]
fn run_returns_output_for_a_fast_command() {
    let command = Toolchain::new("echo", None).run(&args(&["hello"]), false).unwrap();
    assert_eq!(command.bin, "echo");
    assert_eq!(command.argv, vec!["hello"]);
    let ended = exited(Some(0), "hello\n", "");
    assert_eq!(command.reap_after(&ended, 7), None);
    let out = command.settle(ended).unwrap();
    assert_eq!(out.status, 0);
    assert_eq!(out.stdout.trim(), "hello");
}

#[test]
fn run_returns_cancelled_for_a_pre_cancelled_token() {
    let err = Toolchain::new("sleep", None).run(&args(&["30"]), true).unwrap_err();
    assert!(matches!(err, CoreError::Cancelled), "got {err:?}");
}

#[test]
fn run_maps_a_missing_binary_to_toolchain_not_found() {
    let command = Toolchain::new("compact-does-not-exist-xyz", None).list(false).unwrap();
    let err = command.settle(Ended::NotStarted(failed(IoKind::NotFound))).unwrap_err();
    assert!(matches!(err, CoreError::ToolchainNotFound), "got {err:?}");
    let err = command.settle(Ended::NotStarted(failed(IoKind::Other))).unwrap_err();
    assert!(matches!(err, CoreError::Io(_)), "got {err:?}");
    let err = command.settle(Ended::Lost(failed(IoKind::NotFound))).unwrap_err();
    assert!(matches!(err, CoreError::Io(_)), "got {err:?}");
}

#[test]
fn a_program_that_a_signal_ended_has_no_exit_code() {
    let command = Toolchain::new("x", None).list(false).unwrap();
    assert_eq!(command.settle(exited(None, "", "")).unwrap().status, -1);
}

#[test]
fn a_failed_list_is_never_an_empty_list() {
    let command = Toolchain::new("compact", None).list(false).unwrap();
    let err = command.run_checked(output(3, "out", "err")).unwrap_err();
    assert_eq!(err.message(), "`compact list` failed with exit code 3: err");
    let pinned = Toolchain::new("compact", Some("1.2.3".to_string()));
    let command = pinned.run_compile(&args(&["--version"]), false).unwrap();
    let err = command.line(output(1, "", "bad pin")).unwrap_err();
    assert_eq!(
        err.message(),
        "`compact compile +1.2.3 --version` failed with exit code 1: bad pin"
    );
    assert_eq!(command.line(output(0, " 0.31.1 \n", "")).unwrap(), "0.31.1");
}

#[test]
fn the_two_streams_never_run_together() {
    assert_eq!(joined_output(&output(0, "a", "b")), "a\nb");
    assert_eq!(joined_output(&output(0, "a", "")), "a");
    assert_eq!(joined_output(&output(0, "", "b")), "b");
    let command = Toolchain::new("compact", None).check(false).unwrap();
    assert_eq!(command.argv, vec!["check"]);
    assert_eq!(command.report(output(0, "Up to date", "note")).unwrap(), "Up to date\nnote");
}

#[test]
fn only_a_version_is_installed() {
    let tc = Toolchain::new("compact", None);
    assert_eq!(tc.update(None, false).unwrap().argv, vec!["update"]);
    assert_eq!(
        tc.update(Some("0.31.1"), false).unwrap().argv,
        vec!["update", "0.31.1"]
    );
    let err = tc.update(Some("--foo"), false).unwrap_err();
    assert_eq!(
        err.message(),
        "invalid arguments: not a valid compiler version: --foo"
    );
    assert!(matches!(tc.update(Some("0.31.1"), true), Err(CoreError::Cancelled)));
    assert_eq!(tc.clean(false).unwrap().argv, vec!["clean"]);
}

// --- versions ---

#[test]
fn tested_language_version_is_compatible_and_quiet() {
    let s = skew_for("0.23.0");
    assert!(s.compatible);
    assert_eq!(s.detail, None);
}

#[test]
fn older_language_version_is_incompatible() {
    let s = skew_for("0.22.0");
    assert!(!s.compatible);
    assert!(s.detail.unwrap().contains("0.23.0"));
}

#[test]
fn newer_language_version_is_compatible_but_warns() {
    let s = skew_for("0.24.0");
    assert!(s.compatible);
    assert!(s.detail.unwrap().contains("validated against"));
}

#[test]
fn unparseable_language_version_is_reported_not_swallowed() {
    let s = skew_for("banana");
    assert!(!s.compatible);
    assert!(s.detail.unwrap().contains("could not parse"));
    assert_eq!(
        skew_for("ban\"ana").detail.unwrap(),
        "could not parse compiler language version \"ban\\\"ana\""
    );
}

#[test]
fn versions_compare_as_semantic_versions_do() {
    let floor = semver::Version::new(0, 23, 0);
    for t in [
        "0.23.0", "0.22.9", "0.23.1", "1.0.0", "0.23.0-alpha", "0.23.0+build", "0.23.0+0",
        "0.23.0-rc.1+b", "0.24.0-alpha", "0.22.0+b", "0.0.0",
    ] {
        let v = semver::Version::parse(t).unwrap();
        let s = skew_of(t, &Some(v.clone()));
        assert_eq!(s.compatible, v >= floor, "{t}");
        assert_eq!(s.detail.is_none(), v == floor, "{t}");
        if let Some(d) = s.detail {
            assert!(d.contains(&format!("compactc reports {v}.")), "{t}: {d}");
        }
    }
}

#[test]
fn versions_reads_the_real_toolchain() {
    let tc = Toolchain::new("compact", Some("0.31.1".to_string()));
    let answers = ["compact 0.5.1\n", "0.31.1\n", "0.23.0\n", "ledger-8.0.2\n", "0.16.0\n"];
    let argvs = [
        vec!["--version"],
        vec!["compile", "+0.31.1", "--version"],
        vec!["compile", "+0.31.1", "--language-version"],
        vec!["compile", "+0.31.1", "--ledger-version"],
        vec!["compile", "+0.31.1", "--runtime-version"],
    ];
    let mut probe = tc.versions();
    let mut last = None;
    for (i, a) in answers.iter().enumerate() {
        let command = probe.command(false).unwrap();
        assert_eq!(command.argv, argvs[i]);
        match probe.step(command.settle(exited(Some(0), a, ""))) {
            VersionStep::Ask(next) => probe = next,
            VersionStep::Done(r) => {
                last = Some(r.unwrap());
                assert_eq!(i, 4);
                break;
            }
        }
    }
    let v = last.unwrap();
    assert!(v.compact_cli.starts_with("compact "), "got {:?}", v.compact_cli);
    assert!(v.ledger.starts_with("ledger-"), "got {:?}", v.ledger);
    assert_eq!(v.language, "0.23.0");
    assert_eq!(v.compiler, "0.31.1");
    assert_eq!(v.runtime, "0.16.0");
    assert_eq!(v.compactp, COMPACTP_VERSION);
    assert!(v.skew.compatible);
}

#[test]
fn the_first_probe_that_fails_decides() {
    let tc = Toolchain::new("compact", None);
    let probe = tc.versions();
    let command = probe.command(false).unwrap();
    let step = probe.step(command.settle(Ended::NotStarted(failed(IoKind::NotFound))));
    assert!(matches!(step, VersionStep::Done(Err(CoreError::ToolchainNotFound))));
    let probe = tc.versions();
    let step = probe.step(Ok(output(2, "", "x")));
    match step {
        VersionStep::Done(Err(e)) => {
            assert_eq!(e.message(), "`compact --version` failed with exit code 2: x")
        }
        other => panic!("got {other:?}"),
    }
    assert!(matches!(tc.versions().command(true), Err(CoreError::Cancelled)));
}

// --- compiling ---

fn request(skip_zk: bool) -> CompileRequest {
    CompileRequest {
        source: AbsPath::parse("/ws/c.compact").unwrap(),
        target_dir: AbsPath::parse("/ws/out/deep").unwrap(),
        skip_zk,
        no_communications_commitment: false,
        source_root: None,
    }
}

fn compile_run(tc: &Toolchain, req: &CompileRequest) -> CompileRun {
    let check = tc.compile(req, false, Duration::from_secs(600)).unwrap();
    assert_eq!(check.path(), "/ws/out/deep");
    match check.step(Entry::NotFound) {
        CompileStep::Look(check) => {
            assert_eq!(check.path(), "/ws/out");
            match check.step(Entry::Real) {
                CompileStep::Run(run) => run,
                other => panic!("got {other:?}"),
            }
        }
        other => panic!("got {other:?}"),
    }
}

#[test]
fn skip_zk_compile_produces_artifacts_but_no_proving_keys() {
    let tc = Toolchain::new("compact", None);
    let run = compile_run(&tc, &request(true));
    assert_eq!(
        run.command().argv,
        vec!["compile", "--vscode", "--skip-zk", "/ws/c.compact", "/ws/out/deep"]
    );
    assert_eq!(run.keys_dir(), "/ws/out/deep/keys");
    let out = run
        .settle(exited(Some(0), "", ""), false, Duration::from_millis(12))
        .unwrap();
    assert!(out.ok, "diagnostics: {:?}", out.diagnostics);
    assert!(!out.proving_keys, "--skip-zk must not emit keys");
    assert!(out.diagnostics.is_empty());
    assert_eq!(out.duration.as_millis(), 12);
}

#[test]
fn keys_of_an_earlier_compile_are_not_taken_for_new_ones() {
    let tc = Toolchain::new("compact", None);
    for skip_zk in [false, true] {
        for there in [false, true] {
            let out = compile_run(&tc, &request(skip_zk))
                .settle(exited(Some(0), "", ""), there, Duration::from_secs(1))
                .unwrap();
            assert_eq!(out.proving_keys, there && !skip_zk);
        }
    }
}

#[test]
fn full_compile_emits_proving_keys() {
    let tc = Toolchain::new("compact", Some("0.42.0".to_string()));
    let req = CompileRequest {
        no_communications_commitment: true,
        source_root: Some("/ws/src".to_string()),
        ..request(false)
    };
    let run = compile_run(&tc, &req);
    assert_eq!(
        run.command().argv,
        vec![
            "compile", "+0.42.0", "--vscode", "--no-communications-commitment", "--sourceRoot",
            "/ws/src", "/ws/c.compact", "/ws/out/deep"
        ]
    );
    assert_eq!(run.command().timeout.as_secs(), 600);
    let out = run
        .settle(exited(Some(0), "", ""), true, Duration::from_secs(1))
        .unwrap();
    assert!(out.ok);
    assert!(out.proving_keys);
}

#[test]
fn a_broken_contract_is_not_an_error_it_is_a_diagnostic() {
    let run = compile_run(&Toolchain::new("compact", None), &request(true));
    let out = run
        .settle(
            exited(
                Some(255),
                "",
                "Exception: c.compact line 7 char 10: unbound identifier undefined_thing\n",
            ),
            true,
            Duration::from_secs(1),
        )
        .expect("compile() must succeed even when the contract does not");

    assert!(!out.ok);
    assert!(!out.proving_keys);
    assert_eq!(out.diagnostics.len(), 1, "compactc stops at the first error");
    assert_eq!(out.diagnostics[0].source, Source::Compactc);
    assert!(out.diagnostics[0].message.contains("unbound identifier"));
    assert_eq!(out.diagnostics[0].span.as_ref().unwrap().start.line, 7);
}

#[test]
fn another_exit_code_of_the_compiler_is_a_failure() {
    let run = compile_run(&Toolchain::new("compact", None), &request(true));
    let err = run
        .settle(exited(Some(1), "o", "e"), false, Duration::from_secs(1))
        .unwrap_err();
    assert_eq!(
        err.message(),
        "`compact compile --vscode --skip-zk /ws/c.compact /ws/out/deep` failed with exit code 1: eo"
    );
    let err = run.settle(Ended::TimedOut, false, Duration::from_secs(1)).unwrap_err();
    assert_eq!(err.message(), "operation timed out after 600s");
}

#[test]
fn cancellation_returns_cancelled() {
    let tc = Toolchain::new("compact", None);
    let err = tc.compile(&request(false), true, Duration::from_secs(600)).unwrap_err();
    assert!(matches!(err, CoreError::Cancelled));
}

#[test]
fn a_target_that_became_a_link_is_not_compiled_to() {
    let tc = Toolchain::new("compact", None);
    let check = tc.compile(&request(true), false, Duration::from_secs(1)).unwrap();
    match check.step(Entry::Symlink) {
        CompileStep::Refused(CoreError::PathEscape(p)) => assert_eq!(p, "/ws/out/deep"),
        other => panic!("got {other:?}"),
    }
    let check = tc.compile(&request(true), false, Duration::from_secs(1)).unwrap();
    match check.step(Entry::Failed(failed(IoKind::Other))) {
        CompileStep::Refused(CoreError::Io(_)) => {}
        other => panic!("got {other:?}"),
    }
}

#[test]
fn a_command_line_is_reported_whole() {
    let c = Command {
        bin: "b".to_string(),
        argv: args(&["x", "y z"]),
        timeout: Duration::from_secs(1),
        output_limit: 1,
    };
    assert_eq!(c.text(), "b x y z");
}
