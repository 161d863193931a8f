//! Refuses `import` and `include` targets that leave the workspace root.
//!
//! The workspace gate checks the path of the source a client names, but the compiler follows
//! the paths inside that source on its own: relative to the directory of the file that holds
//! them, through `..` and absolute paths, with `.compact` appended. So before the compiler
//! runs, the source and every file it pulls in from the root are searched for such paths, and
//! one that leaves the root is refused. A file that is too deep, too large or unreadable is a
//! refusal too, and so is a path literal with an escape sequence.
//!
//! The search is a walk: each step names what it needs to know of the file system and is told.

use vstd::prelude::*;

use crate::analyze::syntax::{Element, ElementView, PARSER_MAX_DEPTH};
use crate::analyze::tokens::{IMPORT, INCLUDE, STRING_LIT};
use crate::analyze::{depth, syntax};
use crate::analyze;
use crate::error::{CoreError, ErrorView, IoError, IoKind};
use crate::path::AbsPath;
use crate::path;
use crate::text;
use crate::text::{chars_of, decimal, quoted, slice_string};
use crate::workspace::Workspace;

verus! {

broadcast use vstd::string::group_string_axioms;

/// The most files a search reads, the entry included.
pub const MAX_SCANNED_FILES: usize = 256;

// ---------------------------------------------------------------------------
// Path literals
// ---------------------------------------------------------------------------

/// The text in the quotes of a string literal; absent where the lexeme is no plainly quoted
/// string or holds a backslash.
pub open spec fn unquoted(lexeme: Seq<char>) -> Option<Seq<char>> {
    let inner = lexeme.subrange(1, lexeme.len() - 1);
    if lexeme.len() >= 2 && (lexeme[0] == '"' || lexeme[0] == '\'') && lexeme.last() == lexeme[0]
        && !inner.contains('\\') {
        Some(inner)
    } else {
        None
    }
}

/// The text in the quotes of a string literal. A literal with an escape sequence is not
/// interpreted: it could name another path than the one the compiler opens.
pub fn unquote(lexeme: &str) -> (r: Option<String>)
    ensures
        text::opt_view(r) == unquoted(lexeme@),
{
    let cs = chars_of(lexeme);
    if cs.len() < 2 {
        return None;
    }
    let n: usize = cs.len() - 1;
    if (cs[0] != '"' && cs[0] != '\'') || cs[n] != cs[0] {
        return None;
    }
    let ghost inner = lexeme@.subrange(1, n as int);
    let mut i: usize = 1;
    while i < n
        invariant
            1 <= i <= n,
            n == cs.len() - 1,
            cs@ == lexeme@,
            inner == lexeme@.subrange(1, n as int),
            forall|j: int| 1 <= j < i ==> cs@[j] != '\\',
        decreases n - i,
    {
        if cs[i] == '\\' {
            assert(inner[i - 1] == '\\');
            return None;
        }
        i = i + 1;
    }
    assert(!inner.contains('\\')) by {
        if inner.contains('\\') {
            let k = choose|k: int| 0 <= k < inner.len() && inner[k] == '\\';
            assert(cs@[k + 1] == '\\');
        }
    }
    Some(slice_string(&cs, 1, n))
}

/// A path without backslashes, in quotes of either kind, is read back as it is.
pub proof fn law_unquote_undoes_quoting(p: Seq<char>, quote: char)
    requires
        quote == '"' || quote == '\'',
        !p.contains('\\'),
    ensures
        unquoted(seq![quote] + p + seq![quote]) == Some(p),
{
    let lexeme = seq![quote] + p + seq![quote];
    assert(lexeme.subrange(1, lexeme.len() - 1) =~= p);
}

/// The path with `.compact` behind it, whatever extension it has.
pub fn append_compact(p: &str) -> (r: String)
    ensures
        r@ == p@ + ".compact"@,
{
    let mut s = p.to_owned();
    s.append(".compact");
    s
}

// ---------------------------------------------------------------------------
// Directives
// ---------------------------------------------------------------------------

/// The string literals of the `import` and `include` directives among the elements `..n`, in
/// source order, nested ones included.
pub open spec fn directive_lexemes(es: Seq<ElementView>, n: int) -> Seq<Seq<char>>
    decreases n,
{
    if n <= 0 {
        seq![]
    } else {
        let before = directive_lexemes(es, n - 1);
        let e = es[n - 1];
        if syntax::is_node(e) && (e.kind == INCLUDE || e.kind == IMPORT) {
            match syntax::child_token(
                es,
                n - 1,
                syntax::subtree_end(es, n - 1, es.len() as int),
                STRING_LIT,
            ) {
                Some(t) => before.push(t),
                None => before,
            }
        } else {
            before
        }
    }
}

/// The paths in these string literals, or the first literal that is not interpreted.
pub open spec fn literal_paths(lexemes: Seq<Seq<char>>) -> Result<Seq<Seq<char>>, Seq<char>>
    decreases lexemes.len(),
{
    if lexemes.len() == 0 {
        Ok(seq![])
    } else {
        match literal_paths(lexemes.drop_last()) {
            Err(bad) => Err(bad),
            Ok(paths) => match unquoted(lexemes.last()) {
                Some(p) => Ok(paths.push(p)),
                None => Err(lexemes.last()),
            },
        }
    }
}

/// The error for a literal that is not interpreted.
pub open spec fn bad_literal(lexeme: Seq<char>) -> ErrorView {
    ErrorView::InvalidArgs(
        "import/include path "@ + text::debug_text(lexeme)
            + " uses an unsupported escape; refusing to compile (it may escape the workspace root)"@,
    )
}

/// The directive targets of a syntax tree.
pub open spec fn tree_targets(es: Seq<ElementView>) -> Result<Seq<Seq<char>>, ErrorView> {
    match literal_paths(directive_lexemes(es, es.len() as int)) {
        Ok(paths) => Ok(paths),
        Err(lexeme) => Err(bad_literal(lexeme)),
    }
}

/// The directive targets of a source text.
pub open spec fn source_targets(source: Seq<char>) -> Result<Seq<Seq<char>>, ErrorView> {
    if depth::too_deep(source) {
        Err(ErrorView::InvalidArgs(analyze::depth_refusal()))
    } else {
        tree_targets(syntax::tree_elements(syntax::parsed(source, PARSER_MAX_DEPTH)))
    }
}

/// What a list of targets or the error in its place says.
pub open spec fn targets_view(r: Result<Vec<String>, CoreError>) -> Result<
    Seq<Seq<char>>,
    ErrorView,
> {
    match r {
        Ok(ts) => Ok(text::views(ts@)),
        Err(e) => Err(e@),
    }
}

/// The directive targets of a syntax tree.
pub fn targets_of_tree(es: &Vec<Element>) -> (r: Result<Vec<String>, CoreError>)
    ensures
        targets_view(r) == tree_targets(syntax::element_views(es@)),
{
    let ghost vs = syntax::element_views(es@);
    let mut out: Vec<String> = Vec::new();
    let mut i: usize = 0;
    assert(text::views(out@) =~= Seq::<Seq<char>>::empty());
    while i < es.len()
        invariant
            i <= es.len(),
            vs == syntax::element_views(es@),
            literal_paths(directive_lexemes(vs, i as int)) == Ok::<Seq<Seq<char>>, Seq<char>>(
                text::views(out@),
            ),
        decreases es.len() - i,
    {
        if es[i].text.is_none() && (es[i].kind == INCLUDE || es[i].kind == IMPORT) {
            let end: usize = syntax::find_subtree_end(es, i, es.len());
            match syntax::find_child_token(es, i, end, STRING_LIT) {
                Some(lexeme) => {
                    let ghost before = directive_lexemes(vs, i as int);
                    assert(before.push(lexeme@).drop_last() =~= before);
                    match unquote(lexeme.as_str()) {
                        Some(p) => {
                            let ghost done = out@;
                            out.push(p);
                            proof {
                                text::lemma_views_push(done, out@.last());
                            }
                        },
                        None => {
                            proof {
                                lemma_first_bad_literal(vs, i + 1);
                            }
                            let mut m = "import/include path ".to_owned();
                            m.append(quoted(lexeme.as_str()).as_str());
                            m.append(
                                " uses an unsupported escape; refusing to compile (it may escape the workspace root)",
                            );
                            return Err(CoreError::InvalidArgs(m));
                        },
                    }
                },
                None => {},
            }
        }
        i = i + 1;
    }
    Ok(out)
}

proof fn lemma_first_bad_literal(es: Seq<ElementView>, n: int)
    requires
        0 <= n <= es.len(),
        literal_paths(directive_lexemes(es, n)) is Err,
    ensures
        literal_paths(directive_lexemes(es, es.len() as int)) == literal_paths(
            directive_lexemes(es, n),
        ),
    decreases es.len() - n,
{
    if n < es.len() {
        let before = directive_lexemes(es, n);
        let after = directive_lexemes(es, n + 1);
        if after != before {
            assert(after.drop_last() =~= before);
        }
        lemma_first_bad_literal(es, n + 1);
    }
}

/// Every `import` and `include` target of a source text that is written as a string literal,
/// those nested in modules included.
pub fn directive_targets(source: &str) -> (r: Result<Vec<String>, CoreError>)
    ensures
        targets_view(r) == source_targets(source@),
{
    if analyze::is_over_max_depth(source) {
        return Err(CoreError::InvalidArgs(analyze::depth_refusal_message()));
    }
    targets_of_tree(&syntax::elements(&syntax::parse_with(source, PARSER_MAX_DEPTH)))
}

// ---------------------------------------------------------------------------
// The search: model
// ---------------------------------------------------------------------------

/// A file that is being searched: the directory its targets are relative to, the targets, and
/// how many are done.
pub struct FrameView {
    pub dir: Seq<char>,
    pub targets: Seq<Seq<char>>,
    pub next: int,
}

/// A search: the files being searched, each pulled in by the one before it; the files met so
/// far; and how many more may be read.
pub struct ScanView {
    pub root: Seq<Seq<char>>,
    pub frames: Seq<FrameView>,
    pub visited: Seq<Seq<Seq<char>>>,
    pub budget: int,
}

/// What a search needs to know next, or its verdict.
pub enum StepView {
    /// Where the current target leads, or with `leaf` the file it stands for.
    Resolve { scan: ScanView, leaf: bool },
    /// Whether there is a file at `child`.
    IsFile { scan: ScanView, child: Seq<Seq<char>> },
    /// How large the file at `child` is.
    Size { scan: ScanView, child: Seq<Seq<char>> },
    /// What the file at `child` holds.
    Read { scan: ScanView, child: Seq<Seq<char>> },
    Done { visited: Seq<Seq<Seq<char>>>, verdict: Result<(), ErrorView> },
}

/// The directory of a file.
pub open spec fn dir_of(root: Seq<Seq<char>>, file: Seq<Seq<char>>) -> Seq<char> {
    if file.len() == 0 {
        path::render(root)
    } else {
        path::render(file.drop_last())
    }
}

/// Continues with the next target, leaving files whose targets are all done.
pub open spec fn advance(scan: ScanView) -> StepView
    decreases scan.frames.len(),
{
    if scan.frames.len() == 0 {
        StepView::Done { visited: scan.visited, verdict: Ok(()) }
    } else if scan.frames.last().next < scan.frames.last().targets.len() {
        StepView::Resolve { scan, leaf: false }
    } else {
        advance(ScanView { frames: scan.frames.drop_last(), ..scan })
    }
}

/// The target that is being looked at.
pub open spec fn current(scan: ScanView) -> Seq<char> {
    scan.frames.last().targets[scan.frames.last().next]
}

/// The path of the current target, or with `leaf` the path of the file it stands for.
pub open spec fn current_path(scan: ScanView, leaf: bool) -> Seq<char> {
    let bare = path::join_text(scan.frames.last().dir, current(scan));
    if leaf {
        bare + ".compact"@
    } else {
        bare
    }
}

/// The search with the current target done.
pub open spec fn skip_target(scan: ScanView) -> ScanView {
    let f = scan.frames.last();
    ScanView {
        frames: scan.frames.drop_last().push(FrameView { next: f.next + 1, ..f }),
        ..scan
    }
}

/// The error for a target that leaves the root.
pub open spec fn escapes(target: Seq<char>) -> ErrorView {
    ErrorView::InvalidArgs(
        "import/include target "@ + text::debug_text(target) + " escapes workspace root"@,
    )
}

/// The error for a search that reads too many files.
pub open spec fn too_many_files() -> ErrorView {
    ErrorView::InvalidArgs(
        "include/import graph exceeds "@ + text::dec(MAX_SCANNED_FILES as nat)
            + " files; refusing to scan"@,
    )
}

/// The error for a file that is too large.
pub open spec fn too_large(len: nat, file: Seq<Seq<char>>) -> ErrorView {
    ErrorView::InvalidArgs(
        "included file too large to scan for imports: "@ + text::dec(len) + " bytes (max "@
            + text::dec(analyze::MAX_SOURCE_BYTES as nat) + ") at "@ + path::render(file),
    )
}

/// After the current target was resolved through the workspace gate.
pub open spec fn after_resolve(
    scan: ScanView,
    leaf: bool,
    place: Option<Seq<Seq<char>>>,
) -> StepView {
    match place {
        None => StepView::Done { visited: scan.visited, verdict: Err(escapes(current(scan))) },
        Some(child) => if leaf {
            StepView::IsFile { scan, child }
        } else {
            StepView::Resolve { scan, leaf: true }
        },
    }
}

/// After it is known whether there is a file at `child`: one not met before is to be read.
pub open spec fn after_kind(scan: ScanView, child: Seq<Seq<char>>, is_file: bool) -> StepView {
    if is_file && !scan.visited.contains(child) {
        let visited = scan.visited.push(child);
        if scan.budget <= 0 {
            StepView::Done { visited, verdict: Err(too_many_files()) }
        } else {
            StepView::Size { scan: ScanView { visited, budget: scan.budget - 1, ..scan }, child }
        }
    } else {
        advance(skip_target(scan))
    }
}

/// After the size of the file at `child` is known.
pub open spec fn after_size(
    scan: ScanView,
    child: Seq<Seq<char>>,
    size: Result<u64, (IoKind, Seq<char>)>,
) -> StepView {
    match size {
        Err((kind, m)) => StepView::Done {
            visited: scan.visited,
            verdict: Err(ErrorView::Io(kind, m)),
        },
        Ok(len) => if len > analyze::MAX_SOURCE_BYTES {
            StepView::Done { visited: scan.visited, verdict: Err(too_large(len as nat, child)) }
        } else {
            StepView::Read { scan, child }
        },
    }
}

/// After the file at `child` was read: its targets are searched before the search goes on.
pub open spec fn after_read(
    scan: ScanView,
    child: Seq<Seq<char>>,
    contents: Result<Seq<char>, (IoKind, Seq<char>)>,
) -> StepView {
    match contents {
        Err((kind, m)) => StepView::Done {
            visited: scan.visited,
            verdict: Err(ErrorView::Io(kind, m)),
        },
        Ok(source) => match source_targets(source) {
            Err(e) => StepView::Done { visited: scan.visited, verdict: Err(e) },
            Ok(targets) => {
                let skipped = skip_target(scan);
                advance(
                    ScanView {
                        frames: skipped.frames.push(
                            FrameView { dir: dir_of(scan.root, child), targets, next: 0 },
                        ),
                        ..skipped
                    },
                )
            },
        },
    }
}

/// The start of a search from the entry file with the text `source`.
pub open spec fn start_scan(
    root: Seq<Seq<char>>,
    entry: Seq<Seq<char>>,
    source: Seq<char>,
) -> StepView {
    match source_targets(source) {
        Err(e) => StepView::Done { visited: seq![entry], verdict: Err(e) },
        Ok(targets) => advance(
            ScanView {
                root,
                frames: seq![FrameView { dir: dir_of(root, entry), targets, next: 0 }],
                visited: seq![entry],
                budget: MAX_SCANNED_FILES - 1,
            },
        ),
    }
}

/// What a search is told of the file system.
pub struct Files {
    /// Where a path leads in the root; absent for one that leaves it.
    pub resolve: spec_fn(Seq<char>) -> Option<Seq<Seq<char>>>,
    pub is_file: spec_fn(Seq<Seq<char>>) -> bool,
    pub size: spec_fn(Seq<Seq<char>>) -> Result<u64, (IoKind, Seq<char>)>,
    pub read: spec_fn(Seq<Seq<char>>) -> Result<Seq<char>, (IoKind, Seq<char>)>,
}

/// One step of a search in which the file system answers as `files` does.
pub open spec fn scan_step(step: StepView, files: Files) -> StepView {
    match step {
        StepView::Resolve { scan, leaf } => after_resolve(
            scan,
            leaf,
            (files.resolve)(current_path(scan, leaf)),
        ),
        StepView::IsFile { scan, child } => after_kind(scan, child, (files.is_file)(child)),
        StepView::Size { scan, child } => after_size(scan, child, (files.size)(child)),
        StepView::Read { scan, child } => after_read(scan, child, (files.read)(child)),
        StepView::Done { .. } => step,
    }
}

/// What a search comes to in `n` steps.
pub open spec fn scan_run(step: StepView, files: Files, n: nat) -> StepView
    decreases n,
{
    if n == 0 || step is Done {
        step
    } else {
        scan_run(scan_step(step, files), files, (n - 1) as nat)
    }
}

// ---------------------------------------------------------------------------
// The search: laws
// ---------------------------------------------------------------------------

/// Whether a target leads into the root, both as it is written and as the file it stands for.
pub open spec fn contained(dir: Seq<char>, target: Seq<char>, files: Files) -> bool {
    let bare = path::join_text(dir, target);
    (files.resolve)(bare) is Some && (files.resolve)(bare + ".compact"@) is Some
}

/// Whether the file that a target stands for, where there is one, is among `visited`.
pub open spec fn followed(
    dir: Seq<char>,
    target: Seq<char>,
    files: Files,
    visited: Seq<Seq<Seq<char>>>,
) -> bool {
    (files.resolve)(path::join_text(dir, target) + ".compact"@) matches Some(c) ==> (files.is_file)(
        c,
    ) ==> visited.contains(c)
}

/// Whether the targets from position `from` on are contained and followed.
pub open spec fn cleared(
    dir: Seq<char>,
    targets: Seq<Seq<char>>,
    from: int,
    files: Files,
    visited: Seq<Seq<Seq<char>>>,
) -> bool {
    forall|k: int| #![trigger targets[k]]
        from <= k < targets.len() ==> contained(dir, targets[k], files) && followed(
            dir,
            targets[k],
            files,
            visited,
        )
}

/// Whether the file at `file` can be read and all its targets are contained and followed.
pub open spec fn file_cleared(
    root: Seq<Seq<char>>,
    file: Seq<Seq<char>>,
    files: Files,
    visited: Seq<Seq<Seq<char>>>,
) -> bool {
    (files.read)(file) matches Ok(source) && source_targets(source) matches Ok(targets) && cleared(
        dir_of(root, file),
        targets,
        0,
        files,
        visited,
    )
}

/// A search that lets a source through has seen it all: every target of the entry, and of
/// every file that is pulled in from there however indirectly, leads into the root.
pub proof fn law_accepted_sources_import_only_from_the_root(
    root: Seq<Seq<char>>,
    entry: Seq<Seq<char>>,
    source: Seq<char>,
    files: Files,
    n: nat,
    visited: Seq<Seq<Seq<char>>>,
)
    requires
        scan_run(start_scan(root, entry, source), files, n) == (StepView::Done {
            visited,
            verdict: Ok(()),
        }),
    ensures
        source_targets(source) matches Ok(targets) && cleared(
            dir_of(root, entry),
            targets,
            0,
            files,
            visited,
        ),
        visited.contains(entry),
        forall|i: int|
            0 < i < visited.len() ==> file_cleared(root, #[trigger] visited[i], files, visited),
{
    match source_targets(source) {
        Err(_) => {},
        Ok(targets) => {
            let f = FrameView { dir: dir_of(root, entry), targets, next: 0 };
            let scan = ScanView {
                root,
                frames: seq![f],
                visited: seq![entry],
                budget: MAX_SCANNED_FILES - 1,
            };
            lemma_advance_well_formed(scan);
            lemma_accepted(root, start_scan(root, entry, source), files, n, visited);
            lemma_advance_obligations(root, scan, files, visited);
            assert(scan.frames[0] == f);
            assert(visited[0] == seq![entry][0]);
        },
    }
}

/// The search of a step that is not the last.
pub open spec fn scan_in(step: StepView) -> ScanView {
    match step {
        StepView::Resolve { scan, .. } => scan,
        StepView::IsFile { scan, .. } => scan,
        StepView::Size { scan, .. } => scan,
        StepView::Read { scan, .. } => scan,
        StepView::Done { .. } => arbitrary(),
    }
}

/// Whether the positions of a search make sense: files below the last may be done, the last
/// has a current target.
pub open spec fn frames_fit(frames: Seq<FrameView>) -> bool {
    forall|i: int|
        0 <= i < frames.len() ==> 0 <= (#[trigger] frames[i]).next <= frames[i].targets.len()
}

pub open spec fn step_fits(step: StepView) -> bool {
    step is Done || {
        let scan = scan_in(step);
        &&& frames_fit(scan.frames)
        &&& scan.frames.len() > 0
        &&& scan.frames.last().next < scan.frames.last().targets.len()
        &&& scan.budget >= 0
    }
}

/// Whether all targets that are left in these files are contained and followed.
spec fn frames_cleared(
    frames: Seq<FrameView>,
    files: Files,
    visited: Seq<Seq<Seq<char>>>,
) -> bool {
    forall|i: int|
        0 <= i < frames.len() ==> cleared(
            (#[trigger] frames[i]).dir,
            frames[i].targets,
            frames[i].next,
            files,
            visited,
        )
}

/// What holds of a step from which a search ends well, having met `end`.
spec fn obligations(
    root: Seq<Seq<char>>,
    step: StepView,
    files: Files,
    end: Seq<Seq<Seq<char>>>,
) -> bool {
    match step {
        StepView::Done { visited, verdict } => visited == end && verdict is Ok,
        _ => {
            let scan = scan_in(step);
            &&& scan.visited.is_prefix_of(end)
            &&& forall|i: int|
                scan.visited.len() <= i < end.len() ==> file_cleared(
                    root,
                    #[trigger] end[i],
                    files,
                    end,
                )
            &&& match step {
                StepView::Resolve { leaf: false, .. } => frames_cleared(scan.frames, files, end),
                _ => frames_cleared(skip_target(scan).frames, files, end),
            }
            &&& match step {
                StepView::Resolve { leaf: true, .. } => {
                    &&& (files.resolve)(current_path(scan, true)) is Some
                    &&& followed(scan.frames.last().dir, current(scan), files, end)
                },
                StepView::IsFile { child, .. } => (files.is_file)(child) ==> end.contains(child),
                StepView::Size { child, .. } => file_cleared(root, child, files, end),
                StepView::Read { child, .. } => file_cleared(root, child, files, end),
                _ => true,
            }
        },
    }
}

proof fn lemma_advance_well_formed(scan: ScanView)
    requires
        frames_fit(scan.frames),
        scan.budget >= 0,
    ensures
        step_fits(advance(scan)),
        advance(scan) is Done || {
            let next = scan_in(advance(scan));
            next.root == scan.root && next.budget == scan.budget && next.visited == scan.visited
        },
    decreases scan.frames.len(),
{
    if scan.frames.len() == 0 {
    } else if scan.frames.last().next < scan.frames.last().targets.len() {
    } else {
        let rest = ScanView { frames: scan.frames.drop_last(), ..scan };
        assert forall|i: int| 0 <= i < rest.frames.len() implies 0 <= (
        #[trigger] rest.frames[i]).next <= rest.frames[i].targets.len() by {
            assert(rest.frames[i] == scan.frames[i]);
        }
        lemma_advance_well_formed(rest);
    }
}

proof fn lemma_skip_fits(scan: ScanView)
    requires
        frames_fit(scan.frames),
        scan.frames.len() > 0,
        scan.frames.last().next < scan.frames.last().targets.len(),
    ensures
        frames_fit(skip_target(scan).frames),
{
    let frames = skip_target(scan).frames;
    assert forall|i: int| 0 <= i < frames.len() implies 0 <= (#[trigger] frames[i]).next
        <= frames[i].targets.len() by {
        if i < frames.len() - 1 {
            assert(frames[i] == scan.frames[i]);
        } else {
            assert(scan.frames[i] == scan.frames.last());
        }
    }
}

/// If the search ends well after leaving the files that are done, all files' remaining targets
/// are contained and followed.
proof fn lemma_advance_obligations(
    root: Seq<Seq<char>>,
    scan: ScanView,
    files: Files,
    end: Seq<Seq<Seq<char>>>,
)
    requires
        frames_fit(scan.frames),
        obligations(root, advance(scan), files, end),
    ensures
        frames_cleared(scan.frames, files, end),
        scan.visited.is_prefix_of(end),
        forall|i: int|
            scan.visited.len() <= i < end.len() ==> file_cleared(root, #[trigger] end[i], files, end),
    decreases scan.frames.len(),
{
    if scan.frames.len() == 0 {
    } else if scan.frames.last().next < scan.frames.last().targets.len() {
    } else {
        let rest = ScanView { frames: scan.frames.drop_last(), ..scan };
        assert forall|i: int| 0 <= i < rest.frames.len() implies 0 <= (
        #[trigger] rest.frames[i]).next <= rest.frames[i].targets.len() by {
            assert(rest.frames[i] == scan.frames[i]);
        }
        lemma_advance_obligations(root, rest, files, end);
        assert forall|i: int| 0 <= i < scan.frames.len() implies cleared(
            (#[trigger] scan.frames[i]).dir,
            scan.frames[i].targets,
            scan.frames[i].next,
            files,
            end,
        ) by {
            if i < rest.frames.len() {
                assert(scan.frames[i] == rest.frames[i]);
            }
        }
    }
}

/// One step keeps the positions sensible.
proof fn lemma_step_fits(step: StepView, files: Files)
    requires
        step_fits(step),
    ensures
        step_fits(scan_step(step, files)),
{
    match step {
        StepView::IsFile { scan, child } => {
            lemma_skip_fits(scan);
            lemma_advance_well_formed(skip_target(scan));
        },
        StepView::Read { scan, child } => {
            lemma_skip_fits(scan);
            if let Ok(source) = (files.read)(child) {
                if let Ok(targets) = source_targets(source) {
                    let skipped = skip_target(scan);
                    let f = FrameView { dir: dir_of(scan.root, child), targets, next: 0 };
                    let next = ScanView { frames: skipped.frames.push(f), ..skipped };
                    assert forall|i: int| 0 <= i < next.frames.len() implies 0 <= (
                    #[trigger] next.frames[i]).next <= next.frames[i].targets.len() by {
                        if i < skipped.frames.len() {
                            assert(next.frames[i] == skipped.frames[i]);
                        }
                    }
                    lemma_advance_well_formed(next);
                }
            }
        },
        _ => {},
    }
}

proof fn lemma_accepted(
    root: Seq<Seq<char>>,
    step: StepView,
    files: Files,
    n: nat,
    end: Seq<Seq<Seq<char>>>,
)
    requires
        step_fits(step),
        step is Done || scan_in(step).root == root,
        scan_run(step, files, n) == (StepView::Done { visited: end, verdict: Ok(()) }),
    ensures
        obligations(root, step, files, end),
    decreases n,
{
    if step is Done {
        return;
    }
    let next = scan_step(step, files);
    lemma_step_fits(step, files);
    let scan = scan_in(step);
    lemma_skip_fits(scan);
    let skipped = skip_target(scan);
    lemma_advance_well_formed(skipped);
    match step {
        StepView::Resolve { leaf, .. } => {
            lemma_accepted(root, next, files, (n - 1) as nat, end);
            if !leaf {
                lemma_unskip(scan, files, end);
            } else {
                let c = (files.resolve)(current_path(scan, true))->Some_0;
                assert(next == (StepView::IsFile { scan, child: c }));
            }
        },
        StepView::IsFile { child, .. } => {
            if (files.is_file)(child) && !scan.visited.contains(child) {
                lemma_accepted(root, next, files, (n - 1) as nat, end);
                let met = scan.visited.push(child);
                assert(met.is_prefix_of(end));
                assert(met[scan.visited.len() as int] == child);
                assert(end[scan.visited.len() as int] == child);
                assert(scan.visited.is_prefix_of(end)) by {
                    assert forall|i: int| 0 <= i < scan.visited.len() implies scan.visited[i]
                        == end[i] by {
                        assert(met[i] == end[i]);
                    }
                }
            } else {
                lemma_accepted(root, next, files, (n - 1) as nat, end);
                lemma_advance_obligations(root, skipped, files, end);
                if (files.is_file)(child) {
                    let k = choose|k: int| 0 <= k < scan.visited.len() && scan.visited[k] == child;
                    assert(end[k] == child);
                }
            }
        },
        StepView::Size { child, .. } => {
            lemma_accepted(root, next, files, (n - 1) as nat, end);
        },
        StepView::Read { child, .. } => {
            let source = (files.read)(child)->Ok_0;
            if (files.read)(child) is Ok && source_targets(source) is Ok {
                let targets = source_targets(source)->Ok_0;
                let f = FrameView { dir: dir_of(scan.root, child), targets, next: 0 };
                let deeper = ScanView { frames: skipped.frames.push(f), ..skipped };
                assert forall|i: int| 0 <= i < deeper.frames.len() implies 0 <= (
                #[trigger] deeper.frames[i]).next <= deeper.frames[i].targets.len() by {
                    if i < skipped.frames.len() {
                        assert(deeper.frames[i] == skipped.frames[i]);
                    }
                }
                lemma_advance_well_formed(deeper);
                lemma_accepted(root, next, files, (n - 1) as nat, end);
                lemma_advance_obligations(root, deeper, files, end);
                assert(deeper.frames[deeper.frames.len() - 1] == f);
                assert forall|i: int| 0 <= i < skipped.frames.len() implies cleared(
                    (#[trigger] skipped.frames[i]).dir,
                    skipped.frames[i].targets,
                    skipped.frames[i].next,
                    files,
                    end,
                ) by {
                    assert(skipped.frames[i] == deeper.frames[i]);
                }
            } else {
                lemma_accepted(root, next, files, (n - 1) as nat, end);
            }
        },
        StepView::Done { .. } => {},
    }
}

/// The current target is contained and followed too, so all are.
proof fn lemma_unskip(scan: ScanView, files: Files, end: Seq<Seq<Seq<char>>>)
    requires
        frames_fit(scan.frames),
        scan.frames.len() > 0,
        scan.frames.last().next < scan.frames.last().targets.len(),
        frames_cleared(skip_target(scan).frames, files, end),
        (files.resolve)(current_path(scan, false)) is Some,
        (files.resolve)(current_path(scan, true)) is Some,
        followed(scan.frames.last().dir, current(scan), files, end),
    ensures
        frames_cleared(scan.frames, files, end),
{
    let skipped = skip_target(scan).frames;
    assert forall|i: int| 0 <= i < scan.frames.len() implies cleared(
        (#[trigger] scan.frames[i]).dir,
        scan.frames[i].targets,
        scan.frames[i].next,
        files,
        end,
    ) by {
        let f = scan.frames[i];
        if i < scan.frames.len() - 1 {
            assert(skipped[i] == f);
        } else {
            assert(skipped[i].targets == f.targets && skipped[i].dir == f.dir);
            assert forall|k: int| #![trigger f.targets[k]] f.next <= k < f.targets.len() implies
                contained(f.dir, f.targets[k], files) && followed(f.dir, f.targets[k], files, end) by {
                if k > f.next {
                    assert(skipped[i].targets[k] == f.targets[k]);
                }
            }
        }
    }
}

/// How many targets are left in the files being searched.
pub open spec fn targets_left(frames: Seq<FrameView>) -> int
    decreases frames.len(),
{
    if frames.len() == 0 {
        0
    } else {
        targets_left(frames.drop_last()) + frames.last().targets.len() - frames.last().next
    }
}

/// A search ends, whatever the file system holds: also where files include one another.
pub proof fn law_search_ends(
    root: Seq<Seq<char>>,
    entry: Seq<Seq<char>>,
    source: Seq<char>,
    files: Files,
)
    ensures
        exists|n: nat| #[trigger] scan_run(start_scan(root, entry, source), files, n) is Done,
{
    let step = start_scan(root, entry, source);
    if let Ok(targets) = source_targets(source) {
        let f = FrameView { dir: dir_of(root, entry), targets, next: 0 };
        let scan = ScanView {
            root,
            frames: seq![f],
            visited: seq![entry],
            budget: MAX_SCANNED_FILES - 1,
        };
        lemma_advance_well_formed(scan);
        let n = lemma_ends(step, files);
        assert(scan_run(step, files, n) is Done);
    } else {
        assert(scan_run(step, files, 0) is Done);
    }
}

/// How far a step is from the next target.
spec fn phase(step: StepView) -> int {
    match step {
        StepView::Resolve { leaf: false, .. } => 5,
        StepView::Resolve { leaf: true, .. } => 4,
        StepView::IsFile { .. } => 3,
        StepView::Size { .. } => 2,
        StepView::Read { .. } => 1,
        StepView::Done { .. } => 0,
    }
}

/// The files that may still be searched, one that is about to be read included.
spec fn files_left(step: StepView) -> int {
    match step {
        StepView::Size { scan, .. } => scan.budget + 1,
        StepView::Read { scan, .. } => scan.budget + 1,
        StepView::Done { .. } => 0,
        _ => scan_in(step).budget,
    }
}

spec fn left(step: StepView) -> int {
    if step is Done {
        0
    } else {
        targets_left(scan_in(step).frames)
    }
}

proof fn lemma_targets_left(frames: Seq<FrameView>)
    requires
        frames_fit(frames),
    ensures
        targets_left(frames) >= 0,
    decreases frames.len(),
{
    if frames.len() > 0 {
        let rest = frames.drop_last();
        assert forall|i: int| 0 <= i < rest.len() implies 0 <= (#[trigger] rest[i]).next
            <= rest[i].targets.len() by {
            assert(rest[i] == frames[i]);
        }
        lemma_targets_left(rest);
        assert(frames[frames.len() - 1] == frames.last());
    }
}

proof fn lemma_advance_left(scan: ScanView)
    requires
        frames_fit(scan.frames),
    ensures
        advance(scan) is Done || left(advance(scan)) <= targets_left(scan.frames),
        advance(scan) is Done || phase(advance(scan)) == 5,
        advance(scan) is Done || files_left(advance(scan)) == scan.budget,
    decreases scan.frames.len(),
{
    if scan.frames.len() == 0 {
    } else if scan.frames.last().next < scan.frames.last().targets.len() {
    } else {
        let rest = ScanView { frames: scan.frames.drop_last(), ..scan };
        assert forall|i: int| 0 <= i < rest.frames.len() implies 0 <= (
        #[trigger] rest.frames[i]).next <= rest.frames[i].targets.len() by {
            assert(rest.frames[i] == scan.frames[i]);
        }
        lemma_advance_left(rest);
        assert(scan.frames[scan.frames.len() - 1] == scan.frames.last());
    }
}

proof fn lemma_ends(step: StepView, files: Files) -> (n: nat)
    requires
        step_fits(step),
    ensures
        scan_run(step, files, n) is Done,
    decreases files_left(step), left(step), phase(step),
{
    if step is Done {
        0
    } else {
        let next = scan_step(step, files);
        lemma_step_fits(step, files);
        let scan = scan_in(step);
        lemma_targets_left(scan.frames);
        lemma_skip_fits(scan);
        let skipped = skip_target(scan);
        lemma_targets_left(skipped.frames);
        assert(skipped.frames.drop_last() =~= scan.frames.drop_last());
        assert(targets_left(skipped.frames) == targets_left(scan.frames) - 1);
        lemma_advance_left(skipped);
        if next is Done {
            assert(scan_run(next, files, 0) is Done);
            assert(scan_run(step, files, 1) == scan_run(next, files, 0));
            1
        } else {
            lemma_targets_left(scan_in(next).frames);
            if let StepView::Read { child, .. } = step {
                let source = (files.read)(child)->Ok_0;
                let targets = source_targets(source)->Ok_0;
                let f = FrameView { dir: dir_of(scan.root, child), targets, next: 0 };
                let deeper = ScanView { frames: skipped.frames.push(f), ..skipped };
                assert forall|i: int| 0 <= i < deeper.frames.len() implies 0 <= (
                #[trigger] deeper.frames[i]).next <= deeper.frames[i].targets.len() by {
                    if i < skipped.frames.len() {
                        assert(deeper.frames[i] == skipped.frames[i]);
                    }
                }
                lemma_advance_left(deeper);
            }
            let m = lemma_ends(next, files);
            assert(scan_run(step, files, m + 1) == scan_run(next, files, m));
            m + 1
        }
    }
}

/// A search meets no file twice, and reads at most [`MAX_SCANNED_FILES`] files, the entry
/// included.
pub proof fn law_search_reads_few_files_once(
    root: Seq<Seq<char>>,
    entry: Seq<Seq<char>>,
    source: Seq<char>,
    files: Files,
    n: nat,
)
    ensures
        ({
            let step = scan_run(start_scan(root, entry, source), files, n);
            step is Done || {
                &&& scan_in(step).visited.no_duplicates()
                &&& scan_in(step).visited.len() <= MAX_SCANNED_FILES
            }
        }),
{
    if let Ok(targets) = source_targets(source) {
        let f = FrameView { dir: dir_of(root, entry), targets, next: 0 };
        let scan = ScanView {
            root,
            frames: seq![f],
            visited: seq![entry],
            budget: MAX_SCANNED_FILES - 1,
        };
        lemma_advance_well_formed(scan);
        lemma_budget_kept(start_scan(root, entry, source), files, n);
    }
}

spec fn budget_kept(step: StepView) -> bool {
    step is Done || {
        &&& scan_in(step).visited.no_duplicates()
        &&& scan_in(step).visited.len() + scan_in(step).budget == MAX_SCANNED_FILES
    }
}

proof fn lemma_budget_kept(step: StepView, files: Files, n: nat)
    requires
        step_fits(step),
        budget_kept(step),
    ensures
        budget_kept(scan_run(step, files, n)),
        step_fits(scan_run(step, files, n)),
    decreases n,
{
    if n == 0 || step is Done {
    } else {
        let next = scan_step(step, files);
        lemma_step_fits(step, files);
        let scan = scan_in(step);
        lemma_skip_fits(scan);
        let skipped = skip_target(scan);
        lemma_advance_well_formed(skipped);
        match step {
            StepView::IsFile { child, .. } => {
                if (files.is_file)(child) && !scan.visited.contains(child) {
                    let met = scan.visited.push(child);
                    assert(met.no_duplicates());
                }
            },
            StepView::Read { child, .. } => {
                let source = (files.read)(child)->Ok_0;
                if (files.read)(child) is Ok && source_targets(source) is Ok {
                    let targets = source_targets(source)->Ok_0;
                    let f = FrameView { dir: dir_of(scan.root, child), targets, next: 0 };
                    let deeper = ScanView { frames: skipped.frames.push(f), ..skipped };
                    assert forall|i: int| 0 <= i < deeper.frames.len() implies 0 <= (
                    #[trigger] deeper.frames[i]).next <= deeper.frames[i].targets.len() by {
                        if i < skipped.frames.len() {
                            assert(deeper.frames[i] == skipped.frames[i]);
                        }
                    }
                    lemma_advance_well_formed(deeper);
                }
            },
            _ => {},
        }
        lemma_budget_kept(next, files, (n - 1) as nat);
    }
}

/// Whether the file at `file` can be read in full.
pub open spec fn within_limit(file: Seq<Seq<char>>, files: Files) -> bool {
    (files.size)(file) matches Ok(n) && n <= analyze::MAX_SOURCE_BYTES
}

/// A source is accepted where all it pulls in lies in the root and in the limits: `reach` holds
/// the entry and every file that is pulled in from there however indirectly, they are not too
/// many, none is too large, and every target of each leads into the root.
pub proof fn law_contained_sources_are_accepted(
    root: Seq<Seq<char>>,
    entry: Seq<Seq<char>>,
    source: Seq<char>,
    files: Files,
    reach: Seq<Seq<Seq<char>>>,
)
    requires
        reach.len() <= MAX_SCANNED_FILES,
        reach.contains(entry),
        source_targets(source) matches Ok(targets) && cleared(
            dir_of(root, entry),
            targets,
            0,
            files,
            reach,
        ),
        forall|i: int|
            0 <= i < reach.len() && #[trigger] reach[i] != entry ==> file_cleared(
                root,
                reach[i],
                files,
                reach,
            ) && within_limit(reach[i], files),
    ensures
        exists|n: nat|
            #[trigger] scan_run(start_scan(root, entry, source), files, n) matches StepView::Done {
                verdict: Ok(()),
                ..
            },
{
    let targets = source_targets(source)->Ok_0;
    let f = FrameView { dir: dir_of(root, entry), targets, next: 0 };
    let scan = ScanView {
        root,
        frames: seq![f],
        visited: seq![entry],
        budget: MAX_SCANNED_FILES - 1,
    };
    let step = start_scan(root, entry, source);
    assert(frames_cleared(scan.frames, files, reach)) by {
        assert(scan.frames[0] == f);
    }
    assert(scan.visited[0] == entry);
    lemma_accepting_advance(root, entry, scan, files, reach);
    let n = lemma_ends(step, files);
    lemma_accepting_run(root, entry, step, files, reach, n);
    assert(scan_run(step, files, n) is Done);
}

/// What holds of a step of a search that will accept the source.
spec fn accepting(
    root: Seq<Seq<char>>,
    entry: Seq<Seq<char>>,
    step: StepView,
    files: Files,
    reach: Seq<Seq<Seq<char>>>,
) -> bool {
    match step {
        StepView::Done { verdict, .. } => verdict is Ok,
        _ => {
            let scan = scan_in(step);
            &&& step_fits(step)
            &&& budget_kept(step)
            &&& scan.root == root
            &&& scan.visited.contains(entry)
            &&& forall|i: int|
                0 <= i < scan.visited.len() ==> reach.contains(#[trigger] scan.visited[i])
            &&& frames_cleared(scan.frames, files, reach)
            &&& match step {
                StepView::IsFile { child, .. } => (files.is_file)(child) ==> reach.contains(child),
                StepView::Size { child, .. } => reach.contains(child) && child != entry,
                StepView::Read { child, .. } => reach.contains(child) && child != entry,
                _ => true,
            }
        },
    }
}

proof fn lemma_accepting_advance(
    root: Seq<Seq<char>>,
    entry: Seq<Seq<char>>,
    scan: ScanView,
    files: Files,
    reach: Seq<Seq<Seq<char>>>,
)
    requires
        scan.root == root,
        frames_fit(scan.frames),
        scan.budget >= 0,
        scan.visited.no_duplicates(),
        scan.visited.len() + scan.budget == MAX_SCANNED_FILES,
        scan.visited.contains(entry),
        forall|i: int| 0 <= i < scan.visited.len() ==> reach.contains(#[trigger] scan.visited[i]),
        frames_cleared(scan.frames, files, reach),
    ensures
        step_fits(advance(scan)),
        accepting(root, entry, advance(scan), files, reach),
    decreases scan.frames.len(),
{
    lemma_advance_well_formed(scan);
    if scan.frames.len() > 0 && scan.frames.last().next >= scan.frames.last().targets.len() {
        let rest = ScanView { frames: scan.frames.drop_last(), ..scan };
        assert forall|i: int| 0 <= i < rest.frames.len() implies 0 <= (
        #[trigger] rest.frames[i]).next <= rest.frames[i].targets.len() by {
            assert(rest.frames[i] == scan.frames[i]);
        }
        assert forall|i: int| 0 <= i < rest.frames.len() implies cleared(
            (#[trigger] rest.frames[i]).dir,
            rest.frames[i].targets,
            rest.frames[i].next,
            files,
            reach,
        ) by {
            assert(rest.frames[i] == scan.frames[i]);
        }
        lemma_accepting_advance(root, entry, rest, files, reach);
    }
}

/// With the current target done, the others are still contained and followed.
proof fn lemma_skip_cleared(scan: ScanView, files: Files, reach: Seq<Seq<Seq<char>>>)
    requires
        scan.frames.len() > 0,
        frames_cleared(scan.frames, files, reach),
    ensures
        frames_cleared(skip_target(scan).frames, files, reach),
{
    let frames = skip_target(scan).frames;
    assert forall|i: int| 0 <= i < frames.len() implies cleared(
        (#[trigger] frames[i]).dir,
        frames[i].targets,
        frames[i].next,
        files,
        reach,
    ) by {
        let f = scan.frames[i];
        assert(cleared(f.dir, f.targets, f.next, files, reach));
        if i < frames.len() - 1 {
            assert(frames[i] == f);
        } else {
            assert(frames[i].targets == f.targets);
        }
    }
}

/// A list without repetitions of things in another list is no longer than it.
proof fn lemma_no_longer(a: Seq<Seq<Seq<char>>>, b: Seq<Seq<Seq<char>>>)
    requires
        a.no_duplicates(),
        forall|i: int| 0 <= i < a.len() ==> b.contains(#[trigger] a[i]),
    ensures
        a.len() <= b.len(),
{
    a.unique_seq_to_set();
    b.lemma_cardinality_of_set();
    assert(a.to_set().subset_of(b.to_set())) by {
        assert forall|x: Seq<Seq<char>>| a.to_set().contains(x) implies b.to_set().contains(x) by {
            let i = choose|i: int| 0 <= i < a.len() && a[i] == x;
            assert(b.contains(a[i]));
        }
    }
    vstd::seq_lib::seq_to_set_is_finite(b);
    vstd::set_lib::lemma_len_subset(a.to_set(), b.to_set());
}

proof fn lemma_accepting_step(
    root: Seq<Seq<char>>,
    entry: Seq<Seq<char>>,
    step: StepView,
    files: Files,
    reach: Seq<Seq<Seq<char>>>,
)
    requires
        accepting(root, entry, step, files, reach),
        !(step is Done),
        reach.len() <= MAX_SCANNED_FILES,
        forall|i: int|
            0 <= i < reach.len() && #[trigger] reach[i] != entry ==> file_cleared(
                root,
                reach[i],
                files,
                reach,
            ) && within_limit(reach[i], files),
    ensures
        accepting(root, entry, scan_step(step, files), files, reach),
{
    let scan = scan_in(step);
    let f = scan.frames.last();
    let next = scan_step(step, files);
    lemma_step_fits(step, files);
    lemma_skip_fits(scan);
    lemma_skip_cleared(scan, files, reach);
    let skipped = skip_target(scan);
    assert(scan.frames[scan.frames.len() - 1] == f);
    assert(cleared(f.dir, f.targets, f.next, files, reach));
    assert(f.targets[f.next] == current(scan));
    match step {
        StepView::Resolve { leaf, .. } => {},
        StepView::IsFile { child, .. } => {
            if (files.is_file)(child) && !scan.visited.contains(child) {
                let met = scan.visited.push(child);
                assert(met.no_duplicates());
                assert forall|i: int| 0 <= i < met.len() implies reach.contains(
                    #[trigger] met[i],
                ) by {
                    if i < scan.visited.len() {
                        assert(met[i] == scan.visited[i]);
                    }
                }
                lemma_no_longer(met, reach);
                let k = choose|k: int| 0 <= k < scan.visited.len() && scan.visited[k] == entry;
                assert(met[k] == entry);
                assert(child != entry);
            } else {
                lemma_accepting_advance(root, entry, skipped, files, reach);
            }
        },
        StepView::Size { child, .. } => {
            let k = choose|k: int| 0 <= k < reach.len() && reach[k] == child;
            assert(within_limit(reach[k], files));
        },
        StepView::Read { child, .. } => {
            let k = choose|k: int| 0 <= k < reach.len() && reach[k] == child;
            assert(file_cleared(root, reach[k], files, reach));
            let targets = source_targets((files.read)(child)->Ok_0)->Ok_0;
            let g = FrameView { dir: dir_of(scan.root, child), targets, next: 0 };
            let deeper = ScanView { frames: skipped.frames.push(g), ..skipped };
            assert forall|i: int| 0 <= i < deeper.frames.len() implies 0 <= (
            #[trigger] deeper.frames[i]).next <= deeper.frames[i].targets.len() by {
                if i < skipped.frames.len() {
                    assert(deeper.frames[i] == skipped.frames[i]);
                }
            }
            assert forall|i: int| 0 <= i < deeper.frames.len() implies cleared(
                (#[trigger] deeper.frames[i]).dir,
                deeper.frames[i].targets,
                deeper.frames[i].next,
                files,
                reach,
            ) by {
                if i < skipped.frames.len() {
                    assert(deeper.frames[i] == skipped.frames[i]);
                }
            }
            lemma_accepting_advance(root, entry, deeper, files, reach);
        },
        StepView::Done { .. } => {},
    }
}

proof fn lemma_accepting_run(
    root: Seq<Seq<char>>,
    entry: Seq<Seq<char>>,
    step: StepView,
    files: Files,
    reach: Seq<Seq<Seq<char>>>,
    n: nat,
)
    requires
        accepting(root, entry, step, files, reach),
        reach.len() <= MAX_SCANNED_FILES,
        forall|i: int|
            0 <= i < reach.len() && #[trigger] reach[i] != entry ==> file_cleared(
                root,
                reach[i],
                files,
                reach,
            ) && within_limit(reach[i], files),
    ensures
        accepting(root, entry, scan_run(step, files, n), files, reach),
    decreases n,
{
    if n > 0 && !(step is Done) {
        lemma_accepting_step(root, entry, step, files, reach);
        lemma_accepting_run(root, entry, scan_step(step, files), files, reach, (n - 1) as nat);
    }
}

// ---------------------------------------------------------------------------
// The search
// ---------------------------------------------------------------------------

#[derive(Debug)]
struct Frame {
    dir: String,
    targets: Vec<String>,
    next: usize,
}

#[derive(Debug)]
struct Scan {
    root: AbsPath,
    frames: Vec<Frame>,
    visited: Vec<AbsPath>,
    budget: usize,
}

spec fn frame_view(f: Frame) -> FrameView {
    FrameView { dir: f.dir@, targets: text::views(f.targets@), next: f.next as int }
}

spec fn frame_views(fs: Seq<Frame>) -> Seq<FrameView> {
    Seq::new(fs.len(), |i: int| frame_view(fs[i]))
}

spec fn path_views(ps: Seq<AbsPath>) -> Seq<Seq<Seq<char>>> {
    Seq::new(ps.len(), |i: int| ps[i]@)
}

spec fn scan_view(s: Scan) -> ScanView {
    ScanView {
        root: s.root@,
        frames: frame_views(s.frames@),
        visited: path_views(s.visited@),
        budget: s.budget as int,
    }
}

/// Whether the last file has a target that is not done.
spec fn has_current(s: Scan) -> bool {
    s.frames.len() > 0 && s.frames@.last().next < s.frames@.last().targets.len()
}

/// A search that must know where [`ScanResolve::path`] leads through the workspace gate.
#[derive(Debug)]
pub struct ScanResolve {
    scan: Scan,
    leaf: bool,
}

/// A search that must know whether there is a file at [`ScanKind::path`].
#[derive(Debug)]
pub struct ScanKind {
    scan: Scan,
    child: AbsPath,
}

/// A search that must know how large the file at [`ScanSize::path`] is.
#[derive(Debug)]
pub struct ScanSize {
    scan: Scan,
    child: AbsPath,
}

/// A search that must know what the file at [`ScanRead::path`] holds.
#[derive(Debug)]
pub struct ScanRead {
    scan: Scan,
    child: AbsPath,
}

/// What a search needs to know next, or its verdict.
#[derive(Debug)]
pub enum ScanStep {
    Resolve(ScanResolve),
    IsFile(ScanKind),
    Size(ScanSize),
    Read(ScanRead),
    Done(Result<(), CoreError>),
}

impl ScanResolve {
    #[verifier::type_invariant]
    spec fn at_a_target(self) -> bool {
        has_current(self.scan)
    }

    pub closed spec fn scan(&self) -> ScanView {
        scan_view(self.scan)
    }

    pub closed spec fn leaf(&self) -> bool {
        self.leaf
    }
}

impl ScanKind {
    #[verifier::type_invariant]
    spec fn at_a_target(self) -> bool {
        has_current(self.scan)
    }

    pub closed spec fn scan(&self) -> ScanView {
        scan_view(self.scan)
    }

    pub closed spec fn child(&self) -> Seq<Seq<char>> {
        self.child@
    }
}

impl ScanSize {
    #[verifier::type_invariant]
    spec fn at_a_target(self) -> bool {
        has_current(self.scan)
    }

    pub closed spec fn scan(&self) -> ScanView {
        scan_view(self.scan)
    }

    pub closed spec fn child(&self) -> Seq<Seq<char>> {
        self.child@
    }
}

impl ScanRead {
    #[verifier::type_invariant]
    spec fn at_a_target(self) -> bool {
        has_current(self.scan)
    }

    pub closed spec fn scan(&self) -> ScanView {
        scan_view(self.scan)
    }

    pub closed spec fn child(&self) -> Seq<Seq<char>> {
        self.child@
    }
}

/// Whether a step is what the model says it is.
pub open spec fn step_is(r: ScanStep, v: StepView) -> bool {
    match r {
        ScanStep::Resolve(s) => v == (StepView::Resolve { scan: s.scan(), leaf: s.leaf() }),
        ScanStep::IsFile(s) => v == (StepView::IsFile { scan: s.scan(), child: s.child() }),
        ScanStep::Size(s) => v == (StepView::Size { scan: s.scan(), child: s.child() }),
        ScanStep::Read(s) => v == (StepView::Read { scan: s.scan(), child: s.child() }),
        ScanStep::Done(u) => v matches StepView::Done { verdict, .. } && verdict
            == crate::error::unit_view(u),
    }
}

/// What a failed operation says.
pub open spec fn io_view(e: IoError) -> (IoKind, Seq<char>) {
    (e.kind, e.message@)
}

fn same_path(a: &AbsPath, b: &AbsPath) -> (r: bool)
    ensures
        r == (a@ == b@),
{
    let r = a.len() == b.len() && a.starts_with(b);
    assert(r ==> a@ =~= b@);
    r
}

/// The directory of a file, in the root where the file is the root of the file system.
fn directory(root: &AbsPath, file: &AbsPath) -> (r: String)
    ensures
        r@ == dir_of(root@, file@),
{
    match file.parent() {
        Some(p) => p.text(),
        None => root.text(),
    }
}

impl Scan {
    /// Continues with the next target.
    fn advance(self) -> (r: ScanStep)
        ensures
            step_is(r, advance(scan_view(self))),
    {
        let ghost start = scan_view(self);
        let mut scan = self;
        while scan.frames.len() > 0
            invariant
                start == scan_view(self),
                advance(scan_view(scan)) == advance(start),
            decreases scan.frames.len(),
        {
            let n: usize = scan.frames.len() - 1;
            assert(scan_view(scan).frames.last() == frame_view(scan.frames@[n as int]));
            if scan.frames[n].next < scan.frames[n].targets.len() {
                return ScanStep::Resolve(ScanResolve { scan, leaf: false });
            }
            let ghost before = scan_view(scan);
            let Scan { root, mut frames, visited, budget } = scan;
            frames.pop();
            scan = Scan { root, frames, visited, budget };
            proof {
                assert(scan_view(scan).frames =~= before.frames.drop_last());
                assert(scan_view(scan) == (ScanView {
                    frames: before.frames.drop_last(),
                    ..before
                }));
            }
        }
        assert(scan_view(scan).frames =~= Seq::<FrameView>::empty());
        ScanStep::Done(Ok(()))
    }

    /// The current target.
    fn current(&self) -> (r: &String)
        requires
            has_current(*self),
        ensures
            r@ == current(scan_view(*self)),
    {
        let n: usize = self.frames.len() - 1;
        assert(scan_view(*self).frames.last() == frame_view(self.frames@[n as int]));
        &self.frames[n].targets[self.frames[n].next]
    }

    /// The path of the current target, or with `leaf` the path of the file it stands for.
    fn current_path(&self, leaf: bool) -> (r: String)
        requires
            has_current(*self),
        ensures
            r@ == current_path(scan_view(*self), leaf),
    {
        let n: usize = self.frames.len() - 1;
        assert(scan_view(*self).frames.last() == frame_view(self.frames@[n as int]));
        let bare = path::join(self.frames[n].dir.as_str(), self.current().as_str());
        if leaf {
            append_compact(bare.as_str())
        } else {
            bare
        }
    }

    /// The search with the current target done.
    fn skip_target(self) -> (r: Scan)
        requires
            has_current(self),
        ensures
            scan_view(r) == skip_target(scan_view(self)),
    {
        let ghost start = scan_view(self);
        let Scan { root, mut frames, visited, budget } = self;
        let n: usize = frames.len() - 1;
        match frames.pop() {
            Some(f) => {
                let Frame { dir, targets, next } = f;
                frames.push(Frame { dir, targets, next: next + 1 });
            },
            None => {},
        }
        let r = Scan { root, frames, visited, budget };
        proof {
            assert(start.frames.last() == frame_view(self.frames@[n as int]));
            assert(scan_view(r).frames =~= skip_target(start).frames);
        }
        r
    }

    fn has_visited(&self, file: &AbsPath) -> (r: bool)
        ensures
            r == scan_view(*self).visited.contains(file@),
    {
        let mut i: usize = 0;
        let ghost met = path_views(self.visited@);
        while i < self.visited.len()
            invariant
                i <= self.visited.len(),
                met == path_views(self.visited@),
                forall|j: int| 0 <= j < i ==> #[trigger] met[j] != file@,
            decreases self.visited.len() - i,
        {
            if same_path(&self.visited[i], file) {
                assert(met[i as int] == file@);
                return true;
            }
            i = i + 1;
        }
        false
    }
}

impl ScanResolve {
    /// The path to resolve.
    pub fn path(&self) -> (r: String)
        ensures
            r@ == current_path(self.scan(), self.leaf()),
    {
        proof {
            use_type_invariant(self);
        }
        self.scan.current_path(self.leaf)
    }

    /// What follows from where the path leads; absent where it leaves the root.
    pub fn step(self, place: Option<AbsPath>) -> (r: ScanStep)
        ensures
            step_is(
                r,
                after_resolve(
                    self.scan(),
                    self.leaf(),
                    match place {
                        Some(p) => Some(p@),
                        None => None,
                    },
                ),
            ),
    {
        proof {
            use_type_invariant(&self);
        }
        match place {
            None => {
                let mut m = "import/include target ".to_owned();
                m.append(quoted(self.scan.current().as_str()).as_str());
                m.append(" escapes workspace root");
                ScanStep::Done(Err(CoreError::InvalidArgs(m)))
            },
            Some(child) => {
                let ScanResolve { scan, leaf } = self;
                if leaf {
                    ScanStep::IsFile(ScanKind { scan, child })
                } else {
                    ScanStep::Resolve(ScanResolve { scan, leaf: true })
                }
            },
        }
    }
}

impl ScanKind {
    /// The path to look at.
    pub fn path(&self) -> (r: String)
        ensures
            r@ == path::render(self.child()),
    {
        self.child.text()
    }

    /// What follows from whether there is a file.
    pub fn step(self, is_file: bool) -> (r: ScanStep)
        ensures
            step_is(r, after_kind(self.scan(), self.child(), is_file)),
    {
        proof {
            use_type_invariant(&self);
        }
        let ghost start = self.scan();
        let ScanKind { scan, child } = self;
        if is_file && !scan.has_visited(&child) {
            let Scan { root, frames, mut visited, budget } = scan;
            let ghost before = visited@;
            visited.push(child.duplicate());
            proof {
                assert(path_views(visited@) =~= path_views(before).push(child@));
            }
            if budget == 0 {
                let mut m = "include/import graph exceeds ".to_owned();
                m.append(decimal(MAX_SCANNED_FILES as u128).as_str());
                m.append(" files; refusing to scan");
                return ScanStep::Done(Err(CoreError::InvalidArgs(m)));
            }
            let scan = Scan { root, frames, visited, budget: budget - 1 };
            ScanStep::Size(ScanSize { scan, child })
        } else {
            scan.skip_target().advance()
        }
    }
}

impl ScanSize {
    /// The path to look at.
    pub fn path(&self) -> (r: String)
        ensures
            r@ == path::render(self.child()),
    {
        self.child.text()
    }

    /// What follows from the size of the file in bytes.
    pub fn step(self, size: Result<u64, IoError>) -> (r: ScanStep)
        ensures
            step_is(
                r,
                after_size(
                    self.scan(),
                    self.child(),
                    match size {
                        Ok(n) => Ok(n),
                        Err(e) => Err(io_view(e)),
                    },
                ),
            ),
    {
        proof {
            use_type_invariant(&self);
        }
        match size {
            Err(e) => ScanStep::Done(Err(CoreError::Io(e))),
            Ok(len) => {
                if len > analyze::MAX_SOURCE_BYTES as u64 {
                    let mut m = "included file too large to scan for imports: ".to_owned();
                    m.append(decimal(len as u128).as_str());
                    m.append(" bytes (max ");
                    m.append(decimal(analyze::MAX_SOURCE_BYTES as u128).as_str());
                    m.append(") at ");
                    m.append(self.child.text().as_str());
                    ScanStep::Done(Err(CoreError::InvalidArgs(m)))
                } else {
                    let ScanSize { scan, child } = self;
                    ScanStep::Read(ScanRead { scan, child })
                }
            },
        }
    }
}

impl ScanRead {
    /// The path of the file to read.
    pub fn path(&self) -> (r: String)
        ensures
            r@ == path::render(self.child()),
    {
        self.child.text()
    }

    /// What follows from the text of the file.
    pub fn step(self, contents: Result<String, IoError>) -> (r: ScanStep)
        ensures
            step_is(
                r,
                after_read(
                    self.scan(),
                    self.child(),
                    match contents {
                        Ok(t) => Ok(t@),
                        Err(e) => Err(io_view(e)),
                    },
                ),
            ),
    {
        proof {
            use_type_invariant(&self);
        }
        match contents {
            Err(e) => ScanStep::Done(Err(CoreError::Io(e))),
            Ok(source) => match directive_targets(source.as_str()) {
                Err(e) => ScanStep::Done(Err(e)),
                Ok(targets) => {
                    let ScanRead { scan, child } = self;
                    let dir = directory(&scan.root, &child);
                    let skipped = scan.skip_target();
                    let ghost before = scan_view(skipped);
                    let Scan { root, mut frames, visited, budget } = skipped;
                    frames.push(Frame { dir, targets, next: 0 });
                    let deeper = Scan { root, frames, visited, budget };
                    proof {
                        assert(scan_view(deeper).frames =~= before.frames.push(
                            FrameView { dir: dir@, targets: text::views(targets@), next: 0 },
                        ));
                    }
                    deeper.advance()
                },
            },
        }
    }
}

/// Starts to search `entry_source`, the text of the file at `entry_path`, and every file it
/// pulls in, for targets that leave the root of `ws`.
pub fn assert_imports_contained(ws: &Workspace, entry_path: &AbsPath, entry_source: &str) -> (r:
    ScanStep)
    ensures
        step_is(r, start_scan(ws@, entry_path@, entry_source@)),
{
    match directive_targets(entry_source) {
        Err(e) => ScanStep::Done(Err(e)),
        Ok(targets) => {
            let root = ws.root().duplicate();
            let dir = directory(&root, entry_path);
            let mut frames: Vec<Frame> = Vec::new();
            frames.push(Frame { dir, targets, next: 0 });
            let mut visited: Vec<AbsPath> = Vec::new();
            visited.push(entry_path.duplicate());
            let scan = Scan { root, frames, visited, budget: MAX_SCANNED_FILES - 1 };
            proof {
                assert(scan_view(scan).frames =~= seq![
                    FrameView { dir: dir@, targets: text::views(targets@), next: 0 },
                ]);
                assert(scan_view(scan).visited =~= seq![entry_path@]);
            }
            scan.advance()
        },
    }
}

// ---------------------------------------------------------------------------
// Laws of the directives
// ---------------------------------------------------------------------------

/// The string literal of the directive at `i`; absent where there is no directive or it has none.
pub open spec fn directive_literal(es: Seq<ElementView>, i: int) -> Option<Seq<char>> {
    if syntax::is_node(es[i]) && (es[i].kind == INCLUDE || es[i].kind == IMPORT) {
        syntax::child_token(es, i, syntax::subtree_end(es, i, es.len() as int), STRING_LIT)
    } else {
        None
    }
}

/// The literal of every `import` and of every `include` is found, wherever it stands, and nothing
/// else is.
pub proof fn law_every_directive_is_found(es: Seq<ElementView>, n: int)
    requires
        0 <= n <= es.len(),
    ensures
        forall|i: int|
            0 <= i < n && #[trigger] directive_literal(es, i) is Some ==> directive_lexemes(
                es,
                n,
            ).contains(directive_literal(es, i)->Some_0),
        forall|k: int|
            0 <= k < directive_lexemes(es, n).len() ==> exists|i: int|
                0 <= i < n && #[trigger] directive_literal(es, i) == Some(
                    #[trigger] directive_lexemes(es, n)[k],
                ),
    decreases n,
{
    if n > 0 {
        law_every_directive_is_found(es, n - 1);
        let before = directive_lexemes(es, n - 1);
        let now = directive_lexemes(es, n);
        assert forall|i: int| 0 <= i < n && #[trigger] directive_literal(
            es,
            i,
        ) is Some implies now.contains(directive_literal(es, i)->Some_0) by {
            let t = directive_literal(es, i)->Some_0;
            if i < n - 1 {
                assert(before.contains(t));
                let k = choose|k: int| 0 <= k < before.len() && before[k] == t;
                assert(now[k] == t);
            } else {
                assert(now.last() == t);
            }
        }
        assert forall|k: int| 0 <= k < now.len() implies exists|i: int|
            0 <= i < n && #[trigger] directive_literal(es, i) == Some(#[trigger] now[k]) by {
            if k < before.len() {
                assert(now[k] == before[k]);
                let i = choose|i: int|
                    0 <= i < n - 1 && #[trigger] directive_literal(es, i) == Some(before[k]);
                assert(directive_literal(es, i) == Some(now[k]));
            } else {
                assert(directive_literal(es, n - 1) == Some(now[k]));
            }
        }
    }
}

/// Only a plainly quoted literal is a path: what is in it, between two quotes of one kind, and
/// without a backslash.
pub proof fn law_only_plain_literals_are_paths(lexeme: Seq<char>)
    ensures
        unquoted(lexeme) matches Some(p) ==> !p.contains('\\') && (lexeme == seq!['"'] + p + seq!['"']
            || lexeme == seq!['\''] + p + seq!['\'']),
{
    if let Some(p) = unquoted(lexeme) {
        assert(lexeme =~= seq![lexeme[0]] + p + seq![lexeme[0]]);
    }
}

/// The targets are the paths in the literals, one for each and in their order; where one is not
/// interpreted, the first such is told, and there are no targets.
pub proof fn law_targets_are_the_paths_in_the_literals(ls: Seq<Seq<char>>)
    ensures
        literal_paths(ls) matches Ok(ps) ==> ps.len() == ls.len() && forall|i: int|
            0 <= i < ls.len() ==> unquoted(#[trigger] ls[i]) == Some(ps[i]),
        literal_paths(ls) matches Err(bad) ==> exists|i: int|
            0 <= i < ls.len() && #[trigger] ls[i] == bad && unquoted(bad) is None && forall|j: int|
                0 <= j < i ==> unquoted(#[trigger] ls[j]) is Some,
    decreases ls.len(),
{
    if ls.len() > 0 {
        let front = ls.drop_last();
        law_targets_are_the_paths_in_the_literals(front);
        match literal_paths(front) {
            Ok(ps) => {
                assert forall|i: int| 0 <= i < front.len() implies unquoted(#[trigger] ls[i])
                    == Some(ps[i]) by {
                    assert(front[i] == ls[i]);
                }
                assert(ls[ls.len() - 1] == ls.last());
            },
            Err(bad) => {
                let i = choose|i: int|
                    0 <= i < front.len() && #[trigger] front[i] == bad && unquoted(bad) is None
                        && forall|j: int| 0 <= j < i ==> unquoted(#[trigger] front[j]) is Some;
                assert(ls[i] == bad);
                assert forall|j: int| 0 <= j < i implies unquoted(#[trigger] ls[j]) is Some by {
                    assert(front[j] == ls[j]);
                }
            },
        }
    }
}

/// A literal that is not interpreted is refused with the literal.
pub proof fn law_unread_literals_are_refused(es: Seq<ElementView>)
    ensures
        literal_paths(directive_lexemes(es, es.len() as int)) matches Ok(ps) ==> tree_targets(es)
            == Ok::<Seq<Seq<char>>, ErrorView>(ps),
        literal_paths(directive_lexemes(es, es.len() as int)) matches Err(bad) ==> tree_targets(es)
            == Err::<Seq<Seq<char>>, ErrorView>(
            ErrorView::InvalidArgs(
                "import/include path "@ + text::debug_text(bad)
                    + " uses an unsupported escape; refusing to compile (it may escape the workspace root)"@,
            ),
        ),
{
}

/// A source that is nested too deeply has no targets and is refused; of any other the targets are
/// those of its tree.
pub proof fn law_sources_give_the_targets_of_their_tree(source: Seq<char>)
    ensures
        depth::too_deep(source) ==> source_targets(source) == Err::<Seq<Seq<char>>, ErrorView>(
            ErrorView::InvalidArgs(analyze::depth_refusal()),
        ),
        !depth::too_deep(source) ==> source_targets(source) == tree_targets(
            syntax::tree_elements(syntax::parsed(source, 256)),
        ),
{
}

// ---------------------------------------------------------------------------
// Laws of the steps
// ---------------------------------------------------------------------------

/// Targets are relative to the directory that their file is in.
pub proof fn law_targets_are_relative_to_their_file(
    root: Seq<Seq<char>>,
    dir: Seq<Seq<char>>,
    name: Seq<char>,
)
    ensures
        dir_of(root, dir.push(name)) == path::render(dir),
{
    assert(dir.push(name).drop_last() =~= dir);
}

/// A target is looked up behind the directory of its file, first as it is written and then with
/// the ending of a source behind it.
pub proof fn law_targets_are_looked_up_twice(
    scan: ScanView,
    f: FrameView,
    before: Seq<FrameView>,
)
    requires
        scan.frames == before.push(f),
    ensures
        current(scan) == f.targets[f.next],
        current_path(scan, false) == path::join_text(f.dir, f.targets[f.next]),
        current_path(scan, true) == path::join_text(f.dir, f.targets[f.next]) + ".compact"@,
{
}

/// A target that leaves the root ends the search, and is named. One that does not is looked up as a
/// file, and then it is asked whether there is one.
pub proof fn law_a_target_outside_ends_the_search(
    scan: ScanView,
    leaf: bool,
    child: Seq<Seq<char>>,
)
    ensures
        after_resolve(scan, leaf, None) == (StepView::Done {
            visited: scan.visited,
            verdict: Err(
                ErrorView::InvalidArgs(
                    "import/include target "@ + text::debug_text(current(scan))
                        + " escapes workspace root"@,
                ),
            ),
        }),
        after_resolve(scan, false, Some(child)) == (StepView::Resolve { scan, leaf: true }),
        after_resolve(scan, true, Some(child)) == (StepView::IsFile { scan, child }),
{
}

/// A file that was not met before is met and read, one less may then be; where none may, the
/// search ends and says so. What is no file, or was met, is passed over.
pub proof fn law_a_new_file_is_read(scan: ScanView, child: Seq<Seq<char>>)
    ensures
        !scan.visited.contains(child) && scan.budget > 0 ==> (after_kind(scan, child, true)
            matches StepView::Size { scan: next, child: c } && c == child && next.visited
            == scan.visited.push(child) && next.budget == scan.budget - 1 && next.frames
            == scan.frames && next.root == scan.root),
        !scan.visited.contains(child) && scan.budget <= 0 ==> after_kind(scan, child, true) == (
        StepView::Done {
            visited: scan.visited.push(child),
            verdict: Err(
                ErrorView::InvalidArgs(
                    "include/import graph exceeds "@ + text::dec(256)
                        + " files; refusing to scan"@,
                ),
            ),
        }),
        scan.visited.contains(child) ==> after_kind(scan, child, true) == advance(
            skip_target(scan),
        ),
        after_kind(scan, child, false) == advance(skip_target(scan)),
{
}

/// Passing a target over takes the next one of the same file, and changes nothing else.
pub proof fn law_passing_over_takes_the_next_target(
    scan: ScanView,
    f: FrameView,
    before: Seq<FrameView>,
)
    requires
        scan.frames == before.push(f),
    ensures
        ({
            let s = skip_target(scan);
            &&& s.root == scan.root
            &&& s.visited == scan.visited
            &&& s.budget == scan.budget
            &&& s.frames.drop_last() == before
            &&& s.frames.len() == before.len() + 1
            &&& s.frames.last().dir == f.dir
            &&& s.frames.last().targets == f.targets
            &&& s.frames.last().next == f.next + 1
        }),
{
    assert(scan.frames.drop_last() =~= before);
    assert(skip_target(scan).frames.drop_last() =~= before);
}

/// The search goes on with the targets that are left, of the file pulled in last before those of
/// the others, and lets the source through where none is left.
pub proof fn law_no_target_is_left_out(scan: ScanView)
    ensures
        scan.frames.len() > 0 && scan.frames.last().next < scan.frames.last().targets.len()
            ==> advance(scan) == (StepView::Resolve { scan, leaf: false }),
        (forall|i: int|
            0 <= i < scan.frames.len() ==> (#[trigger] scan.frames[i]).next
                >= scan.frames[i].targets.len()) ==> advance(scan) == (StepView::Done {
            visited: scan.visited,
            verdict: Ok(()),
        }),
    decreases scan.frames.len(),
{
    if scan.frames.len() > 0 {
        let less = ScanView { frames: scan.frames.drop_last(), ..scan };
        law_no_target_is_left_out(less);
        if forall|i: int|
            0 <= i < scan.frames.len() ==> (#[trigger] scan.frames[i]).next
                >= scan.frames[i].targets.len() {
            assert(scan.frames[scan.frames.len() - 1].next
                >= scan.frames[scan.frames.len() - 1].targets.len());
            assert forall|i: int| 0 <= i < less.frames.len() implies (
            #[trigger] less.frames[i]).next >= less.frames[i].targets.len() by {
                assert(less.frames[i] == scan.frames[i]);
            }
        }
    }
}

/// A file of up to two mebibytes is read; a larger one ends the search with its size and place, and
/// so does a failure of the file system, with its own words.
pub proof fn law_large_files_end_the_search(
    scan: ScanView,
    child: Seq<Seq<char>>,
    len: u64,
    kind: IoKind,
    m: Seq<char>,
)
    ensures
        len <= 2_097_152 ==> after_size(scan, child, Ok(len)) == (StepView::Read { scan, child }),
        len > 2_097_152 ==> after_size(scan, child, Ok(len)) == (StepView::Done {
            visited: scan.visited,
            verdict: Err(
                ErrorView::InvalidArgs(
                    "included file too large to scan for imports: "@ + text::dec(len as nat)
                        + " bytes (max "@ + text::dec(2_097_152) + ") at "@ + path::render(child),
                ),
            ),
        }),
        after_size(scan, child, Err((kind, m))) == (StepView::Done {
            visited: scan.visited,
            verdict: Err(ErrorView::Io(kind, m)),
        }),
        after_read(scan, child, Err((kind, m))) == (StepView::Done {
            visited: scan.visited,
            verdict: Err(ErrorView::Io(kind, m)),
        }),
{
}

/// The targets of a file that was read are searched next, from its own directory; the search then
/// goes on behind the target that pulled it in. What cannot be taken for targets ends the search.
pub proof fn law_files_are_searched_in_turn(
    scan: ScanView,
    child: Seq<Seq<char>>,
    source: Seq<char>,
)
    ensures
        source_targets(source) matches Err(e) ==> after_read(scan, child, Ok(source)) == (
        StepView::Done { visited: scan.visited, verdict: Err(e) }),
        source_targets(source) matches Ok(targets) ==> targets.len() > 0 ==> (after_read(
            scan,
            child,
            Ok(source),
        ) matches StepView::Resolve { scan: next, leaf } && !leaf && next.root == scan.root
            && next.visited == scan.visited && next.budget == scan.budget && next.frames.drop_last()
            == skip_target(scan).frames && next.frames.last().dir == dir_of(scan.root, child)
            && next.frames.last().targets == targets && next.frames.last().next == 0),
        source_targets(source) matches Ok(targets) ==> targets.len() == 0 ==> after_read(
            scan,
            child,
            Ok(source),
        ) == advance(skip_target(scan)),
{
    if let Ok(targets) = source_targets(source) {
        let skipped = skip_target(scan);
        let f = FrameView { dir: dir_of(scan.root, child), targets, next: 0 };
        assert(skipped.frames.push(f).drop_last() =~= skipped.frames);
        if targets.len() == 0 {
            let pushed = ScanView { frames: skipped.frames.push(f), ..skipped };
            assert(ScanView { frames: pushed.frames.drop_last(), ..pushed } == skipped);
        }
    }
}

/// A search starts with the targets of the entry, which it has met, and may read two hundred and
/// fifty-five files more.
pub proof fn law_searches_start_at_the_entry(
    root: Seq<Seq<char>>,
    entry: Seq<Seq<char>>,
    source: Seq<char>,
)
    ensures
        source_targets(source) matches Err(e) ==> start_scan(root, entry, source) == (
        StepView::Done { visited: seq![entry], verdict: Err(e) }),
        source_targets(source) matches Ok(targets) ==> targets.len() > 0 ==> (start_scan(
            root,
            entry,
            source,
        ) matches StepView::Resolve { scan, leaf } && !leaf && scan.root == root && scan.visited
            == seq![entry] && scan.budget == 255 && scan.frames.len() == 1 && scan.frames[0].dir
            == dir_of(root, entry) && scan.frames[0].targets == targets && scan.frames[0].next
            == 0),
        source_targets(source) matches Ok(targets) ==> targets.len() == 0 ==> start_scan(
            root,
            entry,
            source,
        ) == (StepView::Done { visited: seq![entry], verdict: Ok(()) }),
{
    if let Ok(targets) = source_targets(source) {
        let f = FrameView { dir: dir_of(root, entry), targets, next: 0 };
        assert(seq![f].drop_last() =~= Seq::<FrameView>::empty());
        reveal_with_fuel(advance, 3);
    }
}

/// While files are searched, each stage waits for exactly what is needed next. At the end there is
/// no error where the source is let through, and otherwise the error that stopped it.
pub proof fn law_search_steps_are_what_is_needed(r: ScanStep, v: StepView)
    requires
        step_is(r, v),
    ensures
        r matches ScanStep::Resolve(s) ==> v == (StepView::Resolve {
            scan: s.scan(),
            leaf: s.leaf(),
        }),
        r matches ScanStep::IsFile(s) ==> v == (StepView::IsFile {
            scan: s.scan(),
            child: s.child(),
        }),
        r matches ScanStep::Size(s) ==> v == (StepView::Size { scan: s.scan(), child: s.child() }),
        r matches ScanStep::Read(s) ==> v == (StepView::Read { scan: s.scan(), child: s.child() }),
        r matches ScanStep::Done(Ok(())) ==> (v matches StepView::Done { verdict, .. } && verdict
            is Ok),
        r matches ScanStep::Done(Err(e)) ==> (v matches StepView::Done { verdict, .. } && verdict
            == Err::<(), ErrorView>(e@)),
{
}

/// Targets are seen in their order, and a refusal as the error that it is.
pub proof fn law_targets_are_seen_as_they_are(ts: Vec<String>, e: CoreError, io: IoError)
    ensures
        targets_view(Ok(ts)) == Ok::<Seq<Seq<char>>, ErrorView>(text::views(ts@)),
        targets_view(Err(e)) == Err::<Seq<Seq<char>>, ErrorView>(e@),
        io_view(io) == (io.kind, io.message@),
{
}

} // verus!
