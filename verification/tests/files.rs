use compact_mcp::analyze::MAX_SOURCE_BYTES;
use compact_mcp::error::{CoreError, IoError, IoKind};
use compact_mcp::import_scan::{
    append_compact, assert_imports_contained, directive_targets, unquote, ScanStep,
    MAX_SCANNED_FILES,
};
use compact_mcp::path::AbsPath;
use compact_mcp::server::input::{format_input, read_input, ReadStep, SourceInput};
use compact_mcp::server::prepare::{prepare_compile, prepare_scaffold, BuildStep, CompileArgs};
use compact_mcp::server::{RpcError, RpcErrorKind};
use compact_mcp::toolchain::compile::CompileRequest;
use compact_mcp::toolchain::fmt::{FmtInput, FormatOutcome, RewriteStep};
use compact_mcp::toolchain::Output;
use compact_mcp::workspace::{
    assert_no_symlink_swap, Entry, Probe, ResolveStep, RevalidateStep, SwapCheck,
};
use compact_mcp::{Source, Toolchain, Workspace};
use std::collections::BTreeMap;

// --- a file system in memory ---

enum Node {
    Dir,
    File(String),
    Link(String),
}

struct Disk {
    nodes: BTreeMap<String, Node>,
}

impl Disk {
    fn new() -> Disk {
        let mut d = Disk { nodes: BTreeMap::new() };
        d.dir("/ws");
        d.dir("/outside");
        d
    }

    fn parents(&mut self, p: &str) {
        let mut at = String::new();
        let parts: Vec<&str> = p.split('/').filter(|c| !c.is_empty()).collect();
        for c in &parts[..parts.len() - 1] {
            at = format!("{at}/{c}");
            self.nodes.entry(at.clone()).or_insert(Node::Dir);
        }
    }

    fn dir(&mut self, p: &str) {
        self.parents(p);
        self.nodes.insert(p.to_string(), Node::Dir);
    }

    fn file(&mut self, p: &str, text: &str) {
        self.parents(p);
        self.nodes.insert(p.to_string(), Node::File(text.to_string()));
    }

    fn link(&mut self, p: &str, to: &str) {
        self.parents(p);
        self.nodes.insert(p.to_string(), Node::Link(to.to_string()));
    }

    /// The canonical path of `p`, with a link at its end followed or not.
    fn walk(&self, p: &str, follow: bool) -> Option<String> {
        let parts: Vec<&str> = p.split('/').filter(|c| !c.is_empty() && *c != ".").collect();
        let mut cur = String::new();
        for (i, c) in parts.iter().enumerate() {
            if *c == ".." {
                cur = match cur.rfind('/') {
                    Some(k) => cur[..k].to_string(),
                    None => String::new(),
                };
                continue;
            }
            let last = i + 1 == parts.len();
            let next = format!("{cur}/{c}");
            match self.nodes.get(&next)? {
                Node::Link(to) if follow || !last => {
                    let base = if to.starts_with('/') { to.clone() } else { format!("{cur}/{to}") };
                    let real = self.walk(&base, true)?;
                    cur = if real == "/" { String::new() } else { real };
                }
                Node::File(_) if !last => return None,
                _ => cur = next,
            }
        }
        Some(if cur.is_empty() { "/".to_string() } else { cur })
    }

    fn node(&self, p: &str) -> Option<&Node> {
        self.walk(p, true).and_then(|c| self.nodes.get(&c))
    }

    fn probe(&self, p: &str) -> Probe {
        match self.walk(p, true) {
            Some(c) => Probe::Canonical(c),
            None => match self.walk(p, false).and_then(|c| self.nodes.get(&c)) {
                Some(Node::Link(_)) => Probe::BrokenLink,
                _ => Probe::Absent,
            },
        }
    }

    fn entry(&self, p: &str) -> Entry {
        if p == "/" {
            return Entry::Real;
        }
        match self.walk(p, false).and_then(|c| self.nodes.get(&c)) {
            Some(Node::Link(_)) => Entry::Symlink,
            Some(_) => Entry::Real,
            None => Entry::NotFound,
        }
    }

    fn size(&self, p: &str) -> Result<u64, IoError> {
        match self.node(p) {
            Some(Node::File(t)) => Ok(t.len() as u64),
            Some(_) => Ok(0),
            None => Err(missing()),
        }
    }

    fn read(&self, p: &str) -> Result<String, IoError> {
        match self.node(p) {
            Some(Node::File(t)) => Ok(t.clone()),
            Some(_) => Err(IoError { kind: IoKind::Other, message: "Is a directory".to_string() }),
            None => Err(missing()),
        }
    }

    fn is_file(&self, p: &str) -> bool {
        matches!(self.node(p), Some(Node::File(_)))
    }

    fn is_dir(&self, p: &str) -> bool {
        p == "/" || matches!(self.node(p), Some(Node::Dir))
    }
}

fn missing() -> IoError {
    IoError { kind: IoKind::NotFound, message: "No such file or directory".to_string() }
}

fn ws() -> Workspace {
    Workspace::new("/ws").unwrap()
}

fn resolve(disk: &Disk, p: &str) -> Result<AbsPath, CoreError> {
    let mut at = ws().resolve(p);
    loop {
        let probe = disk.probe(&at.path());
        match at.step(probe) {
            ResolveStep::Look(next) => at = next,
            ResolveStep::Done(r) => return r,
        }
    }
}

fn recheck(disk: &Disk, check: SwapCheck) -> Result<(), CoreError> {
    let entry = disk.entry(&check.path());
    let mut step = check.step(entry);
    loop {
        step = match step {
            RevalidateStep::Entry(c) => {
                let entry = disk.entry(&c.path());
                c.step(entry)
            }
            RevalidateStep::Place(c) => {
                let place = disk.walk(&c.path(), true);
                c.step(place)
            }
            RevalidateStep::Done(r) => return r,
        };
    }
}

fn swap_check(disk: &Disk, vetted: &AbsPath) -> Result<(), CoreError> {
    recheck(disk, assert_no_symlink_swap(vetted))
}

fn revalidate(disk: &Disk, vetted: &AbsPath) -> Result<(), CoreError> {
    recheck(disk, ws().revalidate_before_write(vetted))
}

fn scan_once(disk: &Disk, step: ScanStep) -> ScanStep {
    match step {
        ScanStep::Resolve(s) => {
            let place = resolve(disk, &s.path()).ok();
            s.step(place)
        }
        ScanStep::IsFile(s) => {
            let is = disk.is_file(&s.path());
            s.step(is)
        }
        ScanStep::Size(s) => {
            let size = disk.size(&s.path());
            s.step(size)
        }
        ScanStep::Read(s) => {
            let text = disk.read(&s.path());
            s.step(text)
        }
        ScanStep::Done(r) => ScanStep::Done(r),
    }
}

fn check_imports(disk: &Disk, entry: &str, source: &str) -> Result<(), CoreError> {
    let entry = AbsPath::parse(entry).unwrap();
    let mut step = assert_imports_contained(&ws(), &entry, source);
    loop {
        step = match step {
            ScanStep::Done(r) => return r,
            other => scan_once(disk, other),
        };
    }
}

fn escapes(r: &Result<(), CoreError>) -> bool {
    matches!(r, Err(CoreError::InvalidArgs(m)) if m.contains("escapes workspace root"))
}

// --- the workspace ---

#[test]
fn resolves_a_path_inside_the_root() {
    let mut d = Disk::new();
    d.file("/ws/a.compact", "x");
    let p = resolve(&d, "a.compact").unwrap();
    assert!(p.starts_with(ws().root()));
    assert_eq!(p.text(), "/ws/a.compact");
}

#[test]
fn rejects_dotdot_escape() {
    assert!(matches!(
        resolve(&Disk::new(), "../evil"),
        Err(CoreError::PathEscape(_))
    ));
}

#[test]
fn rejects_absolute_path_outside_root() {
    assert!(matches!(
        resolve(&Disk::new(), "/etc/passwd"),
        Err(CoreError::PathEscape(_))
    ));
}

#[test]
fn rejects_symlink_pointing_outside_root() {
    let mut d = Disk::new();
    d.file("/outside/secret", "s");
    d.link("/ws/link", "/outside/secret");
    assert!(matches!(resolve(&d, "link"), Err(CoreError::PathEscape(_))));
}

#[test]
fn a_link_inside_the_root_is_followed() {
    let mut d = Disk::new();
    d.file("/ws/real/a", "s");
    d.link("/ws/link", "real");
    assert_eq!(resolve(&d, "link/a").unwrap().text(), "/ws/real/a");
    assert_eq!(resolve(&d, "link/new/b").unwrap().text(), "/ws/real/new/b");
}

#[test]
fn resolves_a_path_that_does_not_exist_yet() {
    let p = resolve(&Disk::new(), "build/out").unwrap();
    assert!(p.starts_with(ws().root()));
    assert_eq!(p.text(), "/ws/build/out");
}

#[test]
fn a_root_that_is_no_canonical_path_is_no_workspace() {
    assert!(Workspace::new("ws").is_err());
    assert!(Workspace::new("/a/../b").is_err());
}

#[test]
fn temp_scope_lives_inside_the_root_and_is_removed_on_drop() {
    let w = ws();
    let scope = w.temp_scope("probe").unwrap();
    assert!(AbsPath::parse(scope.path()).unwrap().starts_with(w.root()));
    let file = scope
        .write_file("a.compact", "pragma language_version >= 0.23;")
        .unwrap();
    assert_eq!(file.path, format!("{}/a.compact", scope.path()));
    assert_eq!(file.contents, "pragma language_version >= 0.23;");
    let other = w.temp_scope("probe").unwrap();
    assert_ne!(scope.path(), other.path(), "every scratch directory is its own");
    assert!(scope.path().starts_with("/ws/.compact-mcp-tmp/probe-"));
    assert_eq!(scope.path().len(), "/ws/.compact-mcp-tmp/probe-".len() + 36);
}

#[test]
fn temp_scope_rejects_a_traversing_prefix() {
    assert!(matches!(
        ws().temp_scope("../../x"),
        Err(CoreError::InvalidArgs(_))
    ));
}

#[test]
fn write_file_rejects_non_component_names() {
    let scope = ws().temp_scope("probe").unwrap();
    for bad in ["../escape", "a/b", "..", ".", ""] {
        assert!(
            matches!(scope.write_file(bad, "x"), Err(CoreError::InvalidArgs(_))),
            "should reject name {bad:?}"
        );
    }
}

#[test]
fn dotdot_that_escapes_via_a_nonexistent_prefix_is_rejected() {
    assert!(matches!(
        resolve(&Disk::new(), "build/../../evil"),
        Err(CoreError::PathEscape(_))
    ));
}

#[test]
fn dotdot_within_the_root_resolves_lexically() {
    let p = resolve(&Disk::new(), "build/../out").unwrap();
    assert_eq!(p.text(), "/ws/out");
    assert!(p.starts_with(ws().root()));
}

#[test]
fn dotdot_behind_what_does_not_exist_leads_through_no_link() {
    let mut d = Disk::new();
    d.file("/outside/secret", "s");
    d.link("/ws/link", "/outside");
    d.link("/ws/broken", "/ws/nowhere");
    d.link("/ws/inner", "real");
    d.file("/ws/real/a", "s");
    for p in ["link", "link/", "build/../link", "build/../link/secret", "a/b/../../link/new"] {
        assert!(matches!(resolve(&d, p), Err(CoreError::PathEscape(_))), "{p}");
    }
    for p in ["broken", "broken/", "build/../broken", "build/../broken/x"] {
        assert!(matches!(resolve(&d, p), Err(CoreError::PathEscape(_))), "{p}");
    }
    // A link that stays inside is followed, as it is without the detour.
    assert_eq!(resolve(&d, "build/../inner/a").unwrap().text(), "/ws/real/a");
    assert_eq!(resolve(&d, "build/../inner/new").unwrap().text(), "/ws/real/new");
    assert_eq!(resolve(&d, "build/../out").unwrap().text(), "/ws/out");
}

#[test]
fn resolving_again_changes_nothing() {
    let mut d = Disk::new();
    d.file("/ws/real/a", "s");
    d.link("/ws/inner", "real");
    for p in ["", ".", "a", "inner/a", "inner/new/b", "x/../y", "real/", "inner/../q", "/ws/real"] {
        let once = resolve(&d, p).unwrap();
        assert_eq!(resolve(&d, &once.text()).unwrap().text(), once.text(), "{p:?}");
        let absolute = if p.starts_with('/') { p.to_string() } else { format!("/ws/{p}") };
        assert_eq!(resolve(&d, &absolute).unwrap().text(), once.text(), "{p:?}");
        // As long as nothing moves, what was vetted is written to.
        assert!(swap_check(&d, &once).is_ok(), "{p:?}");
        assert!(revalidate(&d, &once).is_ok(), "{p:?}");
    }
}

#[test]
fn assert_no_symlink_swap_passes_for_a_legit_nonexistent_tail() {
    let d = Disk::new();
    let vetted = resolve(&d, "build/out").unwrap();
    assert!(swap_check(&d, &vetted).is_ok());
    assert!(revalidate(&d, &vetted).is_ok());
}

#[test]
fn assert_no_symlink_swap_passes_for_a_real_existing_file() {
    let mut d = Disk::new();
    d.file("/ws/a.compact", "x");
    let vetted = resolve(&d, "a.compact").unwrap();
    assert!(swap_check(&d, &vetted).is_ok());
    assert!(revalidate(&d, &vetted).is_ok());
}

#[test]
fn revalidate_rejects_a_target_swapped_for_a_symlink_after_resolve() {
    let mut d = Disk::new();
    let vetted = resolve(&d, "out").unwrap();
    d.dir("/outside/loot");
    d.link("/ws/out", "/outside/loot");
    assert!(matches!(
        swap_check(&d, &vetted),
        Err(CoreError::PathEscape(_))
    ));
    assert!(matches!(
        revalidate(&d, &vetted),
        Err(CoreError::PathEscape(_))
    ));
}

#[test]
fn revalidate_rejects_a_dangling_symlink_target() {
    let mut d = Disk::new();
    let vetted = resolve(&d, "out").unwrap();
    d.link("/ws/out", "/outside/nope");
    assert!(matches!(
        swap_check(&d, &vetted),
        Err(CoreError::PathEscape(_))
    ));
}

#[test]
fn revalidate_rejects_a_symlinked_ancestor() {
    let mut d = Disk::new();
    let vetted = resolve(&d, "a/b/out").unwrap();
    d.link("/ws/a", "/outside");
    assert!(matches!(
        swap_check(&d, &vetted),
        Err(CoreError::PathEscape(_))
    ));
}

#[test]
fn resolve_rejects_a_dangling_symlink_in_the_tail() {
    let mut d = Disk::new();
    d.link("/ws/link", "/outside/gone");
    assert!(matches!(resolve(&d, "link/x"), Err(CoreError::PathEscape(_))));
}

#[test]
fn method_belt_catches_ancestor_redirect_to_existing_outside_subpath() {
    let mut d = Disk::new();
    let vetted = resolve(&d, "a/b/out").unwrap();
    d.dir("/outside/b");
    d.link("/ws/a", "/outside");
    assert!(
        swap_check(&d, &vetted).is_ok(),
        "the check without a root cannot see this redirect"
    );
    assert!(matches!(
        revalidate(&d, &vetted),
        Err(CoreError::PathEscape(_))
    ));
}

#[test]
fn resolve_never_escapes_the_root() {
    let mut d = Disk::new();
    d.dir("/ws/a/b");
    d.link("/ws/b", "/outside");
    d.link("/ws/a/a", "..");
    let pieces = ["a", "b", ".", "..", "", "ab", "/", "a/b", "../.."];
    let mut accepted = 0;
    for x in pieces {
        for y in pieces {
            for z in pieces {
                let joined = format!("{x}/{y}/{z}");
                if let Ok(p) = resolve(&d, &joined) {
                    accepted += 1;
                    assert!(p.starts_with(ws().root()), "escaped: {joined} -> {}", p.text());
                }
            }
        }
    }
    assert!(accepted > 0);
}

// --- import targets ---

#[test]
fn unquote_strips_quotes_and_refuses_escapes() {
    assert_eq!(unquote(r#""../a/b""#).as_deref(), Some("../a/b"));
    assert_eq!(unquote("'../a/b'").as_deref(), Some("../a/b"));
    assert_eq!(unquote(r#""""#).as_deref(), Some(""));
    assert_eq!(unquote(r#""a\nb""#), None);
    assert_eq!(unquote("bare"), None);
    assert_eq!(unquote(r#"""#), None);
}

#[test]
fn the_extension_is_appended_whatever_the_name() {
    assert_eq!(append_compact("a/b"), "a/b.compact");
    assert_eq!(append_compact("a.compact"), "a.compact.compact");
}

#[test]
fn directive_targets_extracts_include_and_import_paths() {
    let src = r#"
pragma language_version >= 0.23;
import CompactStandardLibrary;
include "./local";
include "../escape";
import "utils/Auth";
import { thing } from "../mod";
import Named;
"#;
    let got = directive_targets(src).unwrap();
    assert_eq!(got, vec!["./local", "../escape", "utils/Auth", "../mod"]);
}

#[test]
fn directive_targets_finds_module_nested_directives() {
    let src = r#"
pragma language_version >= 0.23;
module Inner {
  include "../secret";
}
"#;
    let got = directive_targets(src).unwrap();
    assert_eq!(got, vec!["../secret"]);
}

#[test]
fn in_root_relative_import_is_allowed() {
    let mut d = Disk::new();
    d.file("/ws/Auth.compact", "pragma language_version >= 0.23;\n");
    let src = "pragma language_version >= 0.23;\ninclude \"Auth\";\n";
    d.file("/ws/main.compact", src);
    assert!(check_imports(&d, "/ws/main.compact", src).is_ok());
}

#[test]
fn dotdot_include_escaping_root_is_rejected() {
    let mut d = Disk::new();
    let src = "pragma language_version >= 0.23;\ninclude \"../secret\";\n";
    d.file("/ws/main.compact", src);
    assert!(escapes(&check_imports(&d, "/ws/main.compact", src)));
}

#[test]
fn absolute_path_import_is_rejected() {
    let mut d = Disk::new();
    for directive in [
        "import \"/etc/hostname\";",
        "include \"/etc/hostname\";",
        "import \"../../../../../../etc/hostname\";",
    ] {
        let src = format!("pragma language_version >= 0.23;\n{directive}\n");
        d.file("/ws/main.compact", &src);
        assert!(
            escapes(&check_imports(&d, "/ws/main.compact", &src)),
            "not rejected: {directive}"
        );
    }
}

#[test]
fn transitive_include_escaping_root_is_rejected() {
    let mut d = Disk::new();
    d.file(
        "/ws/helper.compact",
        "pragma language_version >= 0.23;\ninclude \"../secret\";\n",
    );
    let src = "pragma language_version >= 0.23;\ninclude \"helper\";\n";
    d.file("/ws/main.compact", src);
    assert!(escapes(&check_imports(&d, "/ws/main.compact", src)));
}

#[test]
fn inline_source_from_a_nested_temp_dir_escapes_via_dotdot() {
    let mut d = Disk::new();
    let src = "pragma language_version >= 0.23;\ninclude \"../../../secret\";\n";
    d.file("/ws/a/b/input.compact", src);
    assert!(escapes(&check_imports(&d, "/ws/a/b/input.compact", src)));
}

#[test]
fn escaped_path_literal_is_refused_not_guessed() {
    let mut d = Disk::new();
    let src = "pragma language_version >= 0.23;\ninclude \"..\\\\secret\";\n";
    d.file("/ws/main.compact", src);
    let err = check_imports(&d, "/ws/main.compact", src).unwrap_err();
    assert!(matches!(err, CoreError::InvalidArgs(m) if m.contains("unsupported escape")));
}

#[test]
fn a_cycle_between_in_root_files_terminates() {
    let mut d = Disk::new();
    d.file(
        "/ws/a.compact",
        "pragma language_version >= 0.23;\ninclude \"b\";\n",
    );
    d.file(
        "/ws/b.compact",
        "pragma language_version >= 0.23;\ninclude \"a\";\n",
    );
    let src = "pragma language_version >= 0.23;\ninclude \"a\";\n";
    d.file("/ws/main.compact", src);
    assert!(check_imports(&d, "/ws/main.compact", src).is_ok());
}

#[test]
fn clean_contract_with_no_path_imports_is_allowed() {
    let mut d = Disk::new();
    let src = "pragma language_version >= 0.23;\nimport CompactStandardLibrary;\n\
               export ledger n: Counter;\nexport circuit c(): [] { n.increment(1); }\n";
    d.file("/ws/main.compact", src);
    assert!(check_imports(&d, "/ws/main.compact", src).is_ok());
}

#[test]
fn a_source_that_pulls_in_too_many_files_is_refused() {
    let mut d = Disk::new();
    for i in 0..MAX_SCANNED_FILES + 1 {
        d.file(
            &format!("/ws/f{i}.compact"),
            &format!("include \"f{}\";\n", i + 1),
        );
    }
    let err = check_imports(&d, "/ws/main.compact", "include \"f0\";\n").unwrap_err();
    assert!(matches!(err, CoreError::InvalidArgs(_)), "{err:?}");
}

#[test]
fn a_source_within_the_limits_is_accepted() {
    let mut d = Disk::new();
    // With the entry as many files as there may be, each naming the next and the first.
    for i in 0..MAX_SCANNED_FILES - 1 {
        d.file(
            &format!("/ws/f{i}.compact"),
            &format!("include \"f{}\";\ninclude \"f0\";\ninclude \"sub/none\";\n", i + 1),
        );
    }
    let src = "include \"f0\";\ninclude \"main\";\n";
    d.file("/ws/main.compact", src);
    assert!(check_imports(&d, "/ws/main.compact", src).is_ok());
    let last = format!("/ws/f{}.compact", MAX_SCANNED_FILES - 1);
    d.file(&last, "");
    assert!(check_imports(&d, "/ws/main.compact", src).is_err(), "one file more");
    // The largest file there may be.
    d.file("/ws/big.compact", &" ".repeat(MAX_SOURCE_BYTES));
    assert!(check_imports(&d, "/ws/other.compact", "include \"big\";\n").is_ok());
}

#[test]
fn a_pulled_in_file_that_is_too_large_is_refused() {
    let mut d = Disk::new();
    d.file("/ws/big.compact", &"x".repeat(MAX_SOURCE_BYTES + 1));
    let err = check_imports(&d, "/ws/main.compact", "include \"big\";\n").unwrap_err();
    assert!(matches!(err, CoreError::InvalidArgs(_)), "{err:?}");
}

// --- the source of a request ---

fn si(path: Option<&str>, source: Option<&str>) -> SourceInput {
    SourceInput {
        path: path.map(Into::into),
        source: source.map(Into::into),
    }
}

fn input(disk: &Disk, i: &SourceInput) -> Result<(String, String), RpcError> {
    let mut step = read_input(&ws(), i);
    loop {
        step = match step {
            ReadStep::Resolve(s) => {
                let probe = disk.probe(&s.path());
                s.step(probe)
            }
            ReadStep::Kind(s) => {
                let is = disk.is_dir(&s.path());
                s.step(is)
            }
            ReadStep::Size(s) => {
                let size = disk.size(&s.path());
                s.step(size)
            }
            ReadStep::Read(s) => {
                let text = disk.read(&s.path());
                return s.step(text);
            }
            ReadStep::Done(r) => return r,
        };
    }
}

#[test]
fn rejects_both_path_and_source() {
    let err = input(&Disk::new(), &si(Some("a.compact"), Some("x"))).unwrap_err();
    assert_eq!(err.kind, RpcErrorKind::InvalidParams);
    assert_eq!(err.message, "supply exactly one of `path` or `source`");
    assert!(format_input(si(Some("a.compact"), Some("x"))).is_err());
}

#[test]
fn rejects_neither_path_nor_source() {
    assert!(input(&Disk::new(), &si(None, None)).is_err());
    assert!(format_input(si(None, None)).is_err());
    assert!(matches!(format_input(si(Some("p"), None)), Ok(FmtInput::Path(p)) if p == "p"));
    assert!(matches!(format_input(si(None, Some("s"))), Ok(FmtInput::Source(s)) if s == "s"));
}

#[test]
fn rejects_directory_path() {
    let mut d = Disk::new();
    d.dir("/ws/sub");
    let err = input(&d, &si(Some("sub"), None)).unwrap_err();
    assert_eq!(err.message, "`path` must be a file, not a directory: \"sub\"");
    let err = input(&d, &si(Some(""), None)).unwrap_err();
    assert_eq!(err.message, "`path` must be a file, not a directory: \"\"");
}

#[test]
fn rejects_oversized_inline_source() {
    let big = "a".repeat(MAX_SOURCE_BYTES + 1);
    let err = input(&Disk::new(), &si(None, Some(&big))).unwrap_err();
    assert!(format!("{err:?}").contains("too large"));
    assert_eq!(err.message, "input too large: 2097153 bytes (max 2097152)");
}

#[test]
fn rejects_oversized_file() {
    let mut d = Disk::new();
    d.file("/ws/big.compact", &"a".repeat(MAX_SOURCE_BYTES + 1));
    let err = input(&d, &si(Some("big.compact"), None)).unwrap_err();
    assert!(format!("{err:?}").contains("too large"));
}

#[test]
fn accepts_normal_inline_source() {
    let (text, label) = input(&Disk::new(), &si(None, Some("ledger x: Counter;"))).unwrap();
    assert_eq!(text, "ledger x: Counter;");
    assert_eq!(label, "<inline>");
}

#[test]
fn a_file_is_known_by_the_path_the_request_gave() {
    let mut d = Disk::new();
    d.file("/ws/sub/a.compact", "ledger x: Counter;");
    let (text, label) = input(&d, &si(Some("sub/../sub/a.compact"), None)).unwrap();
    assert_eq!(text, "ledger x: Counter;");
    assert_eq!(label, "sub/../sub/a.compact");
}

#[test]
fn a_file_that_cannot_be_read_is_told_as_the_system_tells_it() {
    let err = input(&Disk::new(), &si(Some("none.compact"), None)).unwrap_err();
    assert_eq!(err.message, "No such file or directory");
    let err = input(&Disk::new(), &si(Some("../x"), None)).unwrap_err();
    assert_eq!(err.message, "path escapes workspace root: /x");
}

// --- rewriting ---

const MESSY: &str = "pragma language_version >= 0.23;\nimport CompactStandardLibrary;\nexport ledger    a:Counter;\n";
const NEAT: &str = "pragma language_version >= 0.23;\nimport CompactStandardLibrary;\nexport ledger a: Counter;\n";
const BROKEN: &str = "export circuit oops(): [] { let x = }";

/// Runs a rewrite with a program that makes every file neat, or fails.
fn rewrite(
    disk: &mut Disk,
    step: RewriteStep,
    status: i32,
    ran: &mut Vec<Vec<String>>,
) -> Result<FormatOutcome, CoreError> {
    let mut step = step;
    loop {
        step = match step {
            RewriteStep::Resolve(s) => {
                let probe = disk.probe(&s.path());
                s.step(probe)
            }
            RewriteStep::Size(s) => {
                let size = disk.size(&s.path());
                s.step(size)
            }
            RewriteStep::Read(s) => {
                let text = disk.read(&s.path());
                s.step(text)
            }
            RewriteStep::Entry(s) => {
                let entry = disk.entry(&s.path());
                s.step(entry)
            }
            RewriteStep::Place(s) => {
                let place = disk.walk(&s.path(), true);
                s.step(place)
            }
            RewriteStep::Copy(s) => {
                disk.dir(s.dir());
                disk.file(&s.file().path, &s.file().contents);
                s.step(Ok(()))
            }
            RewriteStep::Run(s) => {
                let command = s.command(false).unwrap();
                if status == 0 {
                    disk.file(&command.argv[1], NEAT);
                }
                ran.push(command.argv);
                s.step(Ok(Output {
                    status,
                    stdout: "out".to_string(),
                    stderr: "err".to_string(),
                }))
            }
            RewriteStep::ReadBack(s) => {
                let text = disk.read(s.path());
                return s.step(text);
            }
            RewriteStep::Done(r) => return r,
        };
    }
}

fn format(
    disk: &mut Disk,
    input: FmtInput,
    write: bool,
    ran: &mut Vec<Vec<String>>,
) -> Result<FormatOutcome, CoreError> {
    let step = Toolchain::new("compact", None).format(&ws(), input, write);
    rewrite(disk, step, 0, ran)
}

#[test]
fn formats_inline_source_without_touching_disk() {
    let mut d = Disk::new();
    let mut ran = vec![];
    let out = format(&mut d, FmtInput::Source(MESSY.into()), false, &mut ran).unwrap();
    assert!(out.ok);
    assert!(out.changed);
    let formatted = out.formatted.unwrap();
    assert!(
        formatted.contains("export ledger a: Counter;"),
        "got {formatted:?}"
    );
    assert_eq!(ran.len(), 1);
    assert_eq!(ran[0][0], "format");
    assert!(ran[0][1].starts_with("/ws/.compact-mcp-tmp/format-"));
    assert!(ran[0][1].ends_with("/input.compact"));
}

#[test]
fn already_canonical_source_reports_unchanged() {
    let mut d = Disk::new();
    let once = format(&mut d, FmtInput::Source(MESSY.into()), false, &mut vec![]).unwrap();
    let twice = format(
        &mut d,
        FmtInput::Source(once.formatted.unwrap()),
        false,
        &mut vec![],
    )
    .unwrap();
    assert!(twice.ok);
    assert!(!twice.changed, "formatting must be idempotent");
}

#[test]
fn syntax_errors_are_reported_as_parse_errors_not_formatting_failures() {
    let mut ran = vec![];
    let out = format(&mut Disk::new(), FmtInput::Source(BROKEN.into()), false, &mut ran).unwrap();
    assert!(!out.ok);
    assert!(!out.changed);
    assert!(out.formatted.is_none());
    assert!(!out.diagnostics.is_empty());
    assert!(
        out.diagnostics
            .iter()
            .all(|d| d.source == Source::Compactp)
    );
    assert!(out.diagnostics.iter().all(|d| d.file.as_deref() == Some("<source>")));
    assert!(ran.is_empty());
}

#[test]
fn write_mode_rewrites_the_file_in_place() {
    let mut d = Disk::new();
    d.file("/ws/m.compact", MESSY);
    let mut ran = vec![];
    let out = format(&mut d, FmtInput::Path("m.compact".into()), true, &mut ran).unwrap();
    assert!(out.ok && out.changed);
    assert!(out.formatted.is_none(), "write mode returns no text");
    assert!(d.read("/ws/m.compact").unwrap().contains("export ledger a: Counter;"));
    assert_eq!(ran, vec![vec!["format", "/ws/m.compact"]]);
}

#[test]
fn fixup_is_a_noop_on_a_clean_file() {
    let mut d = Disk::new();
    d.file("/ws/clean.compact", NEAT);
    let step = Toolchain::new("compact", None).fixup(&ws(), "clean.compact", false);
    let mut ran = vec![];
    let out = rewrite(&mut d, step, 0, &mut ran).unwrap();
    assert!(out.ok);
    assert!(
        !out.changed,
        "fixup on already-canonical source must be a no-op"
    );
    assert_eq!(d.read("/ws/clean.compact").unwrap(), NEAT);
    assert_eq!(ran[0][0], "fixup");
    assert_ne!(ran[0][1], "/ws/clean.compact");
}

#[test]
fn oversize_source_is_rejected_before_any_subprocess() {
    let huge = "x".repeat(MAX_SOURCE_BYTES + 1);
    let mut ran = vec![];
    let err = format(&mut Disk::new(), FmtInput::Source(huge.clone()), false, &mut ran).unwrap_err();
    assert!(matches!(err, CoreError::InvalidArgs(_)), "got {err:?}");
    let mut d = Disk::new();
    d.file("/ws/huge.compact", &huge);
    let err = format(&mut d, FmtInput::Path("huge.compact".into()), true, &mut ran).unwrap_err();
    assert_eq!(
        err.message(),
        "invalid arguments: input exceeds maximum size (2097152 bytes)"
    );
    assert!(ran.is_empty());
}

#[test]
fn write_with_inline_source_is_rejected_before_the_parse_gate() {
    let err = format(
        &mut Disk::new(),
        FmtInput::Source(BROKEN.into()),
        true,
        &mut vec![],
    )
    .unwrap_err();
    assert!(matches!(err, CoreError::InvalidArgs(_)), "got {err:?}");
}

#[test]
fn a_failing_formatter_is_reported_with_both_streams() {
    let mut d = Disk::new();
    d.file("/ws/m.compact", MESSY);
    let step = Toolchain::new("cc", None).fixup(&ws(), "m.compact", true);
    let err = rewrite(&mut d, step, 1, &mut vec![]).unwrap_err();
    assert_eq!(
        err.message(),
        "`cc fixup /ws/m.compact` failed with exit code 1: out\nerr"
    );
}

#[test]
fn a_file_swapped_for_a_link_is_not_rewritten() {
    let mut d = Disk::new();
    d.file("/ws/m.compact", MESSY);
    d.file("/outside/m.compact", MESSY);
    let mut step = Toolchain::new("compact", None).format(
        &ws(),
        FmtInput::Path("m.compact".into()),
        true,
    );
    let mut ran = vec![];
    while !matches!(step, RewriteStep::Entry(_)) {
        step = match step {
            RewriteStep::Resolve(s) => {
                let probe = d.probe(&s.path());
                s.step(probe)
            }
            RewriteStep::Size(s) => s.step(Ok(1)),
            RewriteStep::Read(s) => {
                let next = s.step(Ok(MESSY.to_string()));
                d.link("/ws/m.compact", "/outside/m.compact");
                next
            }
            other => panic!("got {other:?}"),
        };
    }
    let err = rewrite(&mut d, step, 0, &mut ran).unwrap_err();
    assert!(matches!(err, CoreError::PathEscape(_)), "got {err:?}");
    assert!(ran.is_empty());
}

// --- preparing a compile ---

fn compile_args(path: Option<&str>, target: Option<&str>, root: Option<&str>) -> CompileArgs {
    CompileArgs {
        input: si(path, if path.is_none() { Some("inline") } else { None }),
        target_dir: target.map(Into::into),
        skip_zk: true,
        no_communications_commitment: false,
        source_root: root.map(Into::into),
    }
}

fn prepared(disk: &mut Disk, step: BuildStep) -> Result<CompileRequest, CoreError> {
    let mut step = step;
    loop {
        step = match step {
            BuildStep::Source(s) => {
                let probe = disk.probe(&s.path());
                s.step(probe)
            }
            BuildStep::Copy(s) => {
                disk.dir(&s.dir());
                disk.file(&s.file().path, &s.file().contents);
                s.step(Ok(()))
            }
            BuildStep::Scan(s) => {
                let (pending, scan) = s.into_scan();
                pending.step(scan_once(disk, scan))
            }
            BuildStep::Target(s) => {
                let probe = disk.probe(&s.path());
                s.step(probe)
            }
            BuildStep::Root(s) => {
                let probe = disk.probe(&s.path());
                s.step(probe)
            }
            BuildStep::Ready(req) => return Ok(req),
            BuildStep::Refused(e) => return Err(e),
        };
    }
}

fn prepare(disk: &mut Disk, args: &CompileArgs, text: &str) -> Result<CompileRequest, CoreError> {
    let step = prepare_compile(&ws(), args, text);
    prepared(disk, step)
}

#[test]
fn a_compile_goes_where_the_request_says() {
    let mut d = Disk::new();
    d.file("/ws/a.compact", NEAT);
    let req = prepare(&mut d, &compile_args(Some("a.compact"), None, None), NEAT).unwrap();
    assert_eq!(req.source.text(), "/ws/a.compact");
    assert_eq!(req.target_dir.text(), "/ws/build");
    assert_eq!(req.source_root, None);
    assert!(req.skip_zk);
    let args = compile_args(Some("a.compact"), Some("out/x"), Some("src/./lib"));
    let req = prepare(&mut d, &args, NEAT).unwrap();
    assert_eq!(req.target_dir.text(), "/ws/out/x");
    assert_eq!(req.source_root.as_deref(), Some("/ws/src/lib"));
}

#[test]
fn a_source_without_a_file_is_compiled_from_a_copy() {
    let mut d = Disk::new();
    let req = prepare(&mut d, &compile_args(None, None, None), NEAT).unwrap();
    let source = req.source.text();
    assert!(source.starts_with("/ws/.compact-mcp-tmp/compile-"), "{source}");
    assert!(source.ends_with("/input.compact"), "{source}");
    assert_eq!(d.read(&source).unwrap(), NEAT);
}

#[test]
fn compile_rejects_escaping_path_and_target_dir() {
    let mut d = Disk::new();
    d.file("/ws/a.compact", NEAT);
    d.file("/outside/s.compact", NEAT);
    d.link("/ws/link", "/outside");
    for bad in ["../outside/s.compact", "/outside/s.compact", "link/s.compact"] {
        let r = prepare(&mut d, &compile_args(Some(bad), None, None), NEAT);
        assert!(matches!(r, Err(CoreError::PathEscape(_))), "{bad}: {r:?}");
    }
    for bad in ["../outside", "/outside", "link/new"] {
        let r = prepare(&mut d, &compile_args(Some("a.compact"), Some(bad), None), NEAT);
        assert!(matches!(r, Err(CoreError::PathEscape(_))), "{bad}: {r:?}");
        let r = prepare(&mut d, &compile_args(Some("a.compact"), None, Some(bad)), NEAT);
        assert!(matches!(r, Err(CoreError::PathEscape(_))), "{bad}: {r:?}");
    }
}

#[test]
fn a_compile_of_a_source_that_reaches_out_is_refused() {
    let mut d = Disk::new();
    let src = "include \"../../../secret\";\n";
    let r = prepare(&mut d, &compile_args(None, None, None), src);
    assert!(escapes(&r.map(|_| ())));
    let r = prepared(&mut d, prepare_scaffold(&ws(), src));
    assert!(escapes(&r.map(|_| ())));
}

#[test]
fn a_scaffold_is_compiled_beside_its_copy() {
    let mut d = Disk::new();
    let req = prepared(&mut d, prepare_scaffold(&ws(), NEAT)).unwrap();
    let source = req.source.text();
    assert!(source.starts_with("/ws/.compact-mcp-tmp/scaffold-"), "{source}");
    let dir = source.strip_suffix("/input.compact").unwrap().to_string();
    assert_eq!(req.target_dir.text(), format!("{dir}/out"));
    assert!(req.skip_zk);
    assert_eq!(d.read(&source).unwrap(), NEAT);
}

#[test]
fn a_copy_that_cannot_be_made_ends_the_preparation() {
    match prepare_compile(&ws(), &compile_args(None, None, None), NEAT) {
        BuildStep::Copy(s) => match s.step(Err(missing())) {
            BuildStep::Refused(CoreError::Io(e)) => assert_eq!(e.kind, IoKind::NotFound),
            other => panic!("got {other:?}"),
        },
        other => panic!("got {other:?}"),
    }
}
