//! What a compiler run leaves behind.

pub mod contract_info;
pub mod scaffold;
pub mod zkir;

pub use contract_info::{
    ts_type, Argument, Circuit, ContractInfo, LedgerField, StructField, TypeElement, TypeRef,
    Witness,
};
pub use zkir::{Instruction, Zkir, ZkirStats, ZkirVersion};

use vstd::prelude::*;

use crate::error::{CoreError, ErrorView, IoError, IoKind};
use crate::order::sort_texts;
use crate::order;
use crate::path::{is_single_normal_component, AbsPath};
use crate::path;
use crate::text::decimal;
use crate::text;

verus! {

broadcast use vstd::string::group_string_axioms;

/// Largest artifact that is read into memory, in bytes (64 MiB).
pub const MAX_ARTIFACT_BYTES: u64 = 67_108_864;

// ---------------------------------------------------------------------------
// Reading an artifact
// ---------------------------------------------------------------------------

/// How a failed read of an artifact is reported: a file that is not there is a missing
/// artifact, every other failure is an i/o error.
pub open spec fn read_failure(path: Seq<char>, kind: IoKind, message: Seq<char>) -> ErrorView {
    if kind == IoKind::NotFound {
        ErrorView::ArtifactMissing(path)
    } else {
        ErrorView::Io(kind, message)
    }
}

/// How an artifact that is too large is reported.
pub open spec fn over_limit(path: Seq<char>) -> ErrorView {
    ErrorView::MalformedArtifact {
        path,
        reason: "artifact exceeds maximum size (limit "@ + text::dec(MAX_ARTIFACT_BYTES as nat)
            + " bytes)"@,
    }
}

fn report_read_failure(path: &str, e: IoError) -> (r: CoreError)
    ensures
        r@ == read_failure(path@, e.kind, e.message@),
{
    if e.kind == IoKind::NotFound {
        CoreError::ArtifactMissing(path.to_owned())
    } else {
        CoreError::Io(e)
    }
}

fn report_over_limit(path: &str) -> (r: CoreError)
    ensures
        r@ == over_limit(path@),
{
    let mut reason = "artifact exceeds maximum size (limit ".to_owned();
    reason.append(decimal(MAX_ARTIFACT_BYTES as u128).as_str());
    reason.append(" bytes)");
    CoreError::MalformedArtifact { path: path.to_owned(), reason }
}

/// After the size of an artifact was asked for: how many bytes to read at most. One more than
/// the limit, so that a file at the limit can be told from one beyond it.
pub fn plan_artifact_read(path: &str, size: Result<u64, IoError>) -> (r: Result<u64, CoreError>)
    ensures
        match size {
            Err(e) => r matches Err(f) && f@ == read_failure(path@, e.kind, e.message@),
            Ok(n) => if n > MAX_ARTIFACT_BYTES {
                r matches Err(f) && f@ == over_limit(path@)
            } else {
                r == Ok::<u64, CoreError>((MAX_ARTIFACT_BYTES + 1) as u64)
            },
        },
{
    match size {
        Err(e) => Err(report_read_failure(path, e)),
        Ok(n) => {
            if n > MAX_ARTIFACT_BYTES {
                Err(report_over_limit(path))
            } else {
                Ok(MAX_ARTIFACT_BYTES + 1)
            }
        },
    }
}

/// The message of the error that `String::from_utf8` gives for these bytes.
pub uninterp spec fn utf8_error_text(bytes: Seq<u8>) -> Seq<char>;

/// `String::from_utf8` of the standard library: the text these bytes encode, where they are
/// UTF-8; else the message of its error, which is left to the name.
#[verifier::external_body]
fn utf8_text(bytes: Vec<u8>) -> (r: Result<String, String>)
    ensures
        match r {
            Ok(s) => vstd::utf8::valid_utf8(bytes@) && vstd::utf8::encode_utf8(s@) == bytes@,
            Err(m) => !vstd::utf8::valid_utf8(bytes@) && m@ == utf8_error_text(bytes@),
        },
{
    String::from_utf8(bytes).map_err(|e| e.utf8_error().to_string())
}

/// The text of an artifact of which at most [`MAX_ARTIFACT_BYTES`] and one more bytes were
/// read. The bound holds for the bytes that were read, whatever size was told before.
pub fn finish_artifact_read(path: &str, bytes: Result<Vec<u8>, IoError>) -> (r: Result<
    String,
    CoreError,
>)
    ensures
        match bytes {
            Err(e) => r matches Err(f) && f@ == read_failure(path@, e.kind, e.message@),
            Ok(b) => if b@.len() > MAX_ARTIFACT_BYTES {
                r matches Err(f) && f@ == over_limit(path@)
            } else if vstd::utf8::valid_utf8(b@) {
                r matches Ok(s) && vstd::utf8::encode_utf8(s@) == b@
            } else {
                r matches Err(f) && f@ == ErrorView::Io(
                    IoKind::InvalidData,
                    utf8_error_text(b@),
                )
            },
        },
{
    match bytes {
        Err(e) => Err(report_read_failure(path, e)),
        Ok(b) => {
            if b.len() as u64 > MAX_ARTIFACT_BYTES {
                return Err(report_over_limit(path));
            }
            match utf8_text(b) {
                Ok(s) => Ok(s),
                Err(message) => Err(
                    CoreError::Io(IoError { kind: IoKind::InvalidData, message }),
                ),
            }
        },
    }
}

/// An artifact whose text is not what it should be.
pub fn malformed_artifact(path: &str, reason: &str) -> (r: CoreError)
    ensures
        r@ == (ErrorView::MalformedArtifact { path: path@, reason: reason@ }),
{
    CoreError::MalformedArtifact { path: path.to_owned(), reason: reason.to_owned() }
}

// ---------------------------------------------------------------------------
// The files of a target directory
// ---------------------------------------------------------------------------

/// What an entry of a directory is, without following symbolic links.
#[derive(Debug, Clone, Copy, PartialEq, Eq, Structural)]
pub enum EntryKind {
    Symlink,
    Directory,
    File,
}

/// A walk through a target directory: the directories still to be listed and the files found,
/// relative to the target directory.
#[derive(Debug)]
pub struct FileWalk {
    pending: Vec<String>,
    files: Vec<String>,
}

/// The path of an entry in a directory, both relative to the target directory.
pub open spec fn entry_path(dir: Seq<char>, name: Seq<char>) -> Seq<char> {
    if dir.len() == 0 {
        name
    } else {
        dir + "/"@ + name
    }
}

impl FileWalk {
    pub closed spec fn pending(&self) -> Seq<Seq<char>> {
        text::views(self.pending@)
    }

    pub closed spec fn files(&self) -> Seq<Seq<char>> {
        text::views(self.files@)
    }

    /// A walk that starts at the target directory itself.
    pub fn new() -> (r: FileWalk)
        ensures
            r.pending() == seq![Seq::<char>::empty()],
            r.files() == Seq::<Seq<char>>::empty(),
    {
        let mut pending: Vec<String> = Vec::new();
        pending.push(String::new());
        let r = FileWalk { pending, files: Vec::new() };
        proof {
            assert(r.pending() =~= seq![Seq::<char>::empty()]);
            assert(r.files() =~= Seq::<Seq<char>>::empty());
        }
        r
    }

    /// The next directory to list.
    pub fn next_dir(&mut self) -> (r: Option<String>)
        ensures
            final(self).files() == old(self).files(),
            match r {
                Some(d) => old(self).pending().len() > 0 && d@ == old(self).pending().last()
                    && final(self).pending() == old(self).pending().drop_last(),
                None => old(self).pending().len() == 0 && final(self).pending() == old(
                    self,
                ).pending(),
            },
    {
        let r = self.pending.pop();
        proof {
            if old(self).pending@.len() > 0 {
                assert(self.pending() =~= old(self).pending().drop_last());
            }
        }
        r
    }

    /// Notes the entry `name` of the directory `dir`: a directory is to be listed, a file is
    /// found, and a symbolic link is neither followed nor found.
    pub fn note(&mut self, dir: &str, name: &str, kind: EntryKind)
        ensures
            final(self).pending() == if kind == EntryKind::Directory {
                old(self).pending().push(entry_path(dir@, name@))
            } else {
                old(self).pending()
            },
            final(self).files() == if kind == EntryKind::File {
                old(self).files().push(entry_path(dir@, name@))
            } else {
                old(self).files()
            },
    {
        let mut p = dir.to_owned();
        if !dir.is_empty() {
            p.append("/");
        }
        p.append(name);
        proof {
            if dir@.len() == 0 {
                assert(p@ =~= name@);
            }
            text::lemma_views_push(self.pending@, p);
            text::lemma_views_push(self.files@, p);
        }
        match kind {
            EntryKind::Symlink => {},
            EntryKind::Directory => self.pending.push(p),
            EntryKind::File => self.files.push(p),
        }
    }

    /// The files that were found.
    pub fn into_files(self) -> (r: Vec<String>)
        ensures
            text::views(r@) == self.files(),
    {
        self.files
    }
}

/// The entries of each directory, by its path relative to the target directory: their names and
/// what they are.
pub type Listing = spec_fn(Seq<char>) -> Seq<(Seq<char>, EntryKind)>;

/// A walk: the directories still to be listed, the files found, and the directories listed.
pub struct WalkView {
    pub pending: Seq<Seq<char>>,
    pub files: Seq<Seq<char>>,
    pub listed: Seq<Seq<char>>,
}

/// The start of a walk.
pub open spec fn start_walk() -> WalkView {
    WalkView { pending: seq![Seq::<char>::empty()], files: seq![], listed: seq![] }
}

/// A walk after the first `k` of the entries of the directory `dir` were noted.
pub open spec fn noted(
    w: WalkView,
    dir: Seq<char>,
    entries: Seq<(Seq<char>, EntryKind)>,
    k: int,
) -> WalkView
    decreases k,
{
    if k <= 0 {
        w
    } else {
        let before = noted(w, dir, entries, k - 1);
        let p = entry_path(dir, entries[k - 1].0);
        match entries[k - 1].1 {
            EntryKind::Symlink => before,
            EntryKind::Directory => WalkView { pending: before.pending.push(p), ..before },
            EntryKind::File => WalkView { files: before.files.push(p), ..before },
        }
    }
}

/// A walk after the next directory was taken and all its entries were noted.
pub open spec fn walk_step(w: WalkView, tree: Listing) -> WalkView {
    let dir = w.pending.last();
    noted(
        WalkView { pending: w.pending.drop_last(), listed: w.listed.push(dir), ..w },
        dir,
        tree(dir),
        tree(dir).len() as int,
    )
}

/// What a walk comes to in `n` steps.
pub open spec fn walk_run(w: WalkView, tree: Listing, n: nat) -> WalkView
    decreases n,
{
    if n == 0 || w.pending.len() == 0 {
        w
    } else {
        walk_run(walk_step(w, tree), tree, (n - 1) as nat)
    }
}

/// Whether a directory lies in the target directory by `n` steps, none of which is a link.
pub open spec fn reached_in(tree: Listing, dir: Seq<char>, n: nat) -> bool
    decreases n,
{
    if n == 0 {
        dir.len() == 0
    } else {
        exists|d: Seq<char>, i: int|
            #![trigger tree(d)[i]]
            reached_in(tree, d, (n - 1) as nat) && 0 <= i < tree(d).len() && tree(d)[i].1
                == EntryKind::Directory && dir == entry_path(d, tree(d)[i].0)
    }
}

/// Whether a directory lies in the target directory, reached without following a link.
pub open spec fn reached(tree: Listing, dir: Seq<char>) -> bool {
    exists|n: nat| reached_in(tree, dir, n)
}

/// Whether a file lies in a directory that is reached without following a link, and is no link.
pub open spec fn lies_below(tree: Listing, file: Seq<char>) -> bool {
    exists|d: Seq<char>, i: int|
        #![trigger tree(d)[i]]
        reached(tree, d) && 0 <= i < tree(d).len() && tree(d)[i].1 == EntryKind::File && file
            == entry_path(d, tree(d)[i].0)
}

/// A walk that has come to its end has found exactly the files below the target directory that
/// are no links and are reached without following one.
pub proof fn law_a_walk_finds_exactly_the_files(tree: Listing, n: nat, file: Seq<char>)
    requires
        walk_run(start_walk(), tree, n).pending.len() == 0,
    ensures
        walk_run(start_walk(), tree, n).files.contains(file) <==> lies_below(tree, file),
{
    let none = Seq::<char>::empty();
    let s = start_walk();
    assert(walk_keeps(s, tree)) by {
        assert(s.pending[0] == none);
        assert(reached_in(tree, none, 0));
        assert(reached(tree, none));
    }
    lemma_run_keeps(s, tree, n);
    let end = walk_run(s, tree, n);
    if lies_below(tree, file) {
        let (d, i) = choose|d: Seq<char>, i: int|
            #![trigger tree(d)[i]]
            reached(tree, d) && 0 <= i < tree(d).len() && tree(d)[i].1 == EntryKind::File && file
                == entry_path(d, tree(d)[i].0);
        let m = choose|m: nat| reached_in(tree, d, m);
        lemma_reached_is_listed(end, tree, d, m);
        assert(noted_fully(end, tree, d, i));
    }
}

/// Whether what an entry of a listed directory is has been noted.
spec fn noted_fully(w: WalkView, tree: Listing, d: Seq<char>, i: int) -> bool {
    match tree(d)[i].1 {
        EntryKind::Symlink => true,
        EntryKind::Directory => w.pending.contains(entry_path(d, tree(d)[i].0))
            || w.listed.contains(entry_path(d, tree(d)[i].0)),
        EntryKind::File => w.files.contains(entry_path(d, tree(d)[i].0)),
    }
}

/// What holds throughout a walk.
spec fn walk_keeps(w: WalkView, tree: Listing) -> bool {
    &&& w.pending.contains(Seq::<char>::empty()) || w.listed.contains(Seq::<char>::empty())
    &&& forall|p: Seq<char>| #[trigger] w.pending.contains(p) ==> reached(tree, p)
    &&& forall|f: Seq<char>| #[trigger] w.files.contains(f) ==> lies_below(tree, f)
    &&& forall|d: Seq<char>, i: int|
        w.listed.contains(d) && 0 <= i < tree(d).len() ==> #[trigger] noted_fully(w, tree, d, i)
}

proof fn lemma_noted(
    w: WalkView,
    dir: Seq<char>,
    entries: Seq<(Seq<char>, EntryKind)>,
    k: int,
)
    requires
        0 <= k <= entries.len(),
    ensures
        noted(w, dir, entries, k).listed == w.listed,
        forall|p: Seq<char>| #[trigger]
            noted(w, dir, entries, k).pending.contains(p) <==> w.pending.contains(p) || exists|
                j: int,
            |
                0 <= j < k && (#[trigger] entries[j]).1 == EntryKind::Directory && p == entry_path(
                    dir,
                    entries[j].0,
                ),
        forall|p: Seq<char>| #[trigger]
            noted(w, dir, entries, k).files.contains(p) <==> w.files.contains(p) || exists|j: int|
                0 <= j < k && (#[trigger] entries[j]).1 == EntryKind::File && p == entry_path(
                    dir,
                    entries[j].0,
                ),
    decreases k,
{
    if k > 0 {
        lemma_noted(w, dir, entries, k - 1);
        let before = noted(w, dir, entries, k - 1);
        let after = noted(w, dir, entries, k);
        let e = entries[k - 1];
        let p = entry_path(dir, e.0);
        assert forall|q: Seq<char>| #[trigger] after.pending.contains(q) <==> before.pending.contains(
            q,
        ) || (e.1 == EntryKind::Directory && q == p) by {
            lemma_push_contains(before.pending, p, q);
        }
        assert forall|q: Seq<char>| #[trigger] after.files.contains(q) <==> before.files.contains(q)
            || (e.1 == EntryKind::File && q == p) by {
            lemma_push_contains(before.files, p, q);
        }
    }
}

proof fn lemma_push_contains(s: Seq<Seq<char>>, a: Seq<char>, b: Seq<char>)
    ensures
        s.push(a).contains(b) <==> s.contains(b) || a == b,
{
    let t = s.push(a);
    if s.contains(b) {
        let k = choose|k: int| 0 <= k < s.len() && s[k] == b;
        assert(t[k] == b);
    }
    assert(t[s.len() as int] == a);
}

proof fn lemma_step_keeps(w: WalkView, tree: Listing)
    requires
        walk_keeps(w, tree),
        w.pending.len() > 0,
    ensures
        walk_keeps(walk_step(w, tree), tree),
{
    let dir = w.pending.last();
    let entries = tree(dir);
    let taken = WalkView { pending: w.pending.drop_last(), listed: w.listed.push(dir), ..w };
    let next = walk_step(w, tree);
    lemma_noted(taken, dir, entries, entries.len() as int);
    assert(w.pending =~= taken.pending.push(dir));
    assert forall|p: Seq<char>| w.pending.contains(p) implies #[trigger] next.pending.contains(p)
        || next.listed.contains(p) by {
        lemma_push_contains(taken.pending, dir, p);
        lemma_push_contains(w.listed, dir, p);
    }
    assert forall|p: Seq<char>| w.listed.contains(p) implies #[trigger] next.listed.contains(p) by {
        lemma_push_contains(w.listed, dir, p);
    }
    let none = Seq::<char>::empty();
    assert(next.pending.contains(none) || next.listed.contains(none));
    assert(w.pending.contains(dir)) by {
        assert(w.pending[w.pending.len() - 1] == dir);
    }
    assert(reached(tree, dir));
    let m = choose|m: nat| reached_in(tree, dir, m);
    assert forall|p: Seq<char>| #[trigger] next.pending.contains(p) implies reached(tree, p) by {
        if taken.pending.contains(p) {
            lemma_push_contains(taken.pending, dir, p);
            assert(w.pending.contains(p));
        } else {
            let j = choose|j: int|
                0 <= j < entries.len() && (#[trigger] entries[j]).1 == EntryKind::Directory && p
                    == entry_path(dir, entries[j].0);
            assert(tree(dir)[j].1 == EntryKind::Directory);
            assert(reached_in(tree, p, m + 1));
        }
    }
    assert forall|f: Seq<char>| #[trigger] next.files.contains(f) implies lies_below(tree, f) by {
        if !w.files.contains(f) {
            let j = choose|j: int|
                0 <= j < entries.len() && (#[trigger] entries[j]).1 == EntryKind::File && f
                    == entry_path(dir, entries[j].0);
            assert(tree(dir)[j].1 == EntryKind::File);
        }
    }
    assert forall|d: Seq<char>, i: int|
        next.listed.contains(d) && 0 <= i < tree(d).len() implies #[trigger] noted_fully(
        next,
        tree,
        d,
        i,
    ) by {
        lemma_push_contains(w.listed, dir, d);
        if w.listed.contains(d) {
            assert(noted_fully(w, tree, d, i));
            let p = entry_path(d, tree(d)[i].0);
            if tree(d)[i].1 == EntryKind::Directory && w.pending.contains(p) {
                assert(next.pending.contains(p) || next.listed.contains(p));
            }
        } else {
            assert(entries[i] == tree(d)[i]);
        }
    }
}

proof fn lemma_run_keeps(w: WalkView, tree: Listing, n: nat)
    requires
        walk_keeps(w, tree),
    ensures
        walk_keeps(walk_run(w, tree, n), tree),
    decreases n,
{
    if n > 0 && w.pending.len() > 0 {
        lemma_step_keeps(w, tree);
        lemma_run_keeps(walk_step(w, tree), tree, (n - 1) as nat);
    }
}

/// Once nothing is left to be listed, every directory that is reached was.
proof fn lemma_reached_is_listed(w: WalkView, tree: Listing, dir: Seq<char>, m: nat)
    requires
        walk_keeps(w, tree),
        w.pending.len() == 0,
        reached_in(tree, dir, m),
    ensures
        w.listed.contains(dir),
    decreases m,
{
    if m == 0 {
        assert(dir =~= Seq::<char>::empty());
    } else {
        let (d, i) = choose|d: Seq<char>, i: int|
            #![trigger tree(d)[i]]
            reached_in(tree, d, (m - 1) as nat) && 0 <= i < tree(d).len() && tree(d)[i].1
                == EntryKind::Directory && dir == entry_path(d, tree(d)[i].0);
        lemma_reached_is_listed(w, tree, d, (m - 1) as nat);
        assert(noted_fully(w, tree, d, i));
    }
}

// ---------------------------------------------------------------------------
// The artifacts of each circuit
// ---------------------------------------------------------------------------

#[derive(Debug)]
pub struct CircuitArtifact {
    pub name: String,
    pub proof: bool,
    pub zkir: Option<String>,
    pub bzkir: Option<String>,
    pub prover_key: Option<String>,
    pub verifier_key: Option<String>,
}

#[derive(Debug)]
pub struct Artifacts {
    pub contract_info: ContractInfo,
    /// Whether at least one circuit has a prover key. A build without proving keys has none.
    pub proving_keys: bool,
    /// Every file under the target directory, relative to it and in order.
    pub files: Vec<String>,
    pub circuits: Vec<CircuitArtifact>,
}

/// What a [`CircuitArtifact`] says.
pub struct CircuitArtifactView {
    pub name: Seq<char>,
    pub proof: bool,
    pub zkir: Option<Seq<char>>,
    pub bzkir: Option<Seq<char>>,
    pub prover_key: Option<Seq<char>>,
    pub verifier_key: Option<Seq<char>>,
}

impl View for CircuitArtifact {
    type V = CircuitArtifactView;

    open spec fn view(&self) -> CircuitArtifactView {
        CircuitArtifactView {
            name: self.name@,
            proof: self.proof,
            zkir: text::opt_view(self.zkir),
            bzkir: text::opt_view(self.bzkir),
            prover_key: text::opt_view(self.prover_key),
            verifier_key: text::opt_view(self.verifier_key),
        }
    }
}

/// Where the artifacts of one circuit are looked for, relative to the target directory.
#[derive(Debug)]
pub struct Candidates {
    pub zkir: String,
    pub bzkir: String,
    pub prover_key: String,
    pub verifier_key: String,
}

/// The canonical places of the candidates of one circuit; absent for one that does not exist.
#[derive(Debug)]
pub struct Places {
    pub zkir: Option<String>,
    pub bzkir: Option<String>,
    pub prover_key: Option<String>,
    pub verifier_key: Option<String>,
}

/// Where an artifact of the circuit `name` is looked for.
pub open spec fn candidate(subdir: Seq<char>, name: Seq<char>, ext: Seq<char>) -> Seq<char> {
    subdir + "/"@ + name + "."@ + ext
}

fn candidate_path(subdir: &str, name: &str, ext: &str) -> (r: String)
    ensures
        r@ == candidate(subdir@, name@, ext@),
{
    let mut s = subdir.to_owned();
    s.append("/");
    s.append(name);
    s.append(".");
    s.append(ext);
    s
}

/// Where the artifacts of a circuit are looked for. A name that is no single plain name is not
/// put into a path.
pub fn candidates(name: &str) -> (r: Option<Candidates>)
    ensures
        match r {
            Some(c) => {
                &&& path::plain_name(name@)
                &&& c.zkir@ == candidate("zkir"@, name@, "zkir"@)
                &&& c.bzkir@ == candidate("zkir"@, name@, "bzkir"@)
                &&& c.prover_key@ == candidate("keys"@, name@, "prover"@)
                &&& c.verifier_key@ == candidate("keys"@, name@, "verifier"@)
            },
            None => !path::plain_name(name@),
        },
{
    if !is_single_normal_component(name) {
        return None;
    }
    Some(
        Candidates {
            zkir: candidate_path("zkir", name, "zkir"),
            bzkir: candidate_path("zkir", name, "bzkir"),
            prover_key: candidate_path("keys", name, "prover"),
            verifier_key: candidate_path("keys", name, "verifier"),
        },
    )
}

/// Whether the canonical place of an artifact lies in the canonical target directory.
pub open spec fn lies_in(root: Option<Seq<char>>, place: Option<Seq<char>>) -> bool {
    root matches Some(r) && place matches Some(p) && path::canonical(r) && path::canonical(p)
        && path::names_of(path::components(r)).is_prefix_of(path::names_of(path::components(p)))
}

/// An artifact is found where it exists, lies in the target directory, and its circuit has a
/// single plain name.
pub open spec fn found(
    name: Seq<char>,
    root: Option<Seq<char>>,
    place: Option<Seq<char>>,
    rel: Seq<char>,
) -> Option<Seq<char>> {
    if path::plain_name(name) && lies_in(root, place) {
        Some(rel)
    } else {
        None
    }
}

/// The artifacts of a circuit whose candidates lie at `places`.
pub open spec fn circuit_artifact(
    c: Circuit,
    root: Option<Seq<char>>,
    places: Places,
) -> CircuitArtifactView {
    let name = c.name@;
    CircuitArtifactView {
        name,
        proof: c.proof,
        zkir: found(
            name,
            root,
            text::opt_view(places.zkir),
            candidate("zkir"@, name, "zkir"@),
        ),
        bzkir: found(
            name,
            root,
            text::opt_view(places.bzkir),
            candidate("zkir"@, name, "bzkir"@),
        ),
        prover_key: found(
            name,
            root,
            text::opt_view(places.prover_key),
            candidate("keys"@, name, "prover"@),
        ),
        verifier_key: found(
            name,
            root,
            text::opt_view(places.verifier_key),
            candidate("keys"@, name, "verifier"@),
        ),
    }
}

fn inside(root: &Option<AbsPath>, place: &Option<String>) -> (r: bool)
    ensures
        r == (root matches Some(b) && text::opt_view(*place) matches Some(p) && path::canonical(p)
            && b@.is_prefix_of(path::names_of(path::components(p)))),
{
    match (root, place) {
        (Some(b), Some(p)) => match AbsPath::parse(p.as_str()) {
            Some(q) => q.starts_with(b),
            None => false,
        },
        _ => false,
    }
}

fn keep_if(inside: bool, rel: String) -> (r: Option<String>)
    ensures
        r == if inside {
            Some(rel)
        } else {
            None
        },
{
    if inside {
        Some(rel)
    } else {
        None
    }
}

/// Where the compiler's model of a contract lies in a target directory.
pub fn contract_info_path(target_dir: &str) -> (r: String)
    ensures
        r@ == path::join_text(target_dir@, "compiler/contract-info.json"@),
{
    path::join(target_dir, "compiler/contract-info.json")
}

/// A target directory must exist before its artifacts are looked at.
pub fn check_target_dir(target_dir: &str, is_dir: bool) -> (r: Result<(), CoreError>)
    ensures
        match r {
            Ok(()) => is_dir,
            Err(e) => !is_dir && e@ == ErrorView::ArtifactMissing(target_dir@),
        },
{
    if is_dir {
        Ok(())
    } else {
        Err(CoreError::ArtifactMissing(target_dir.to_owned()))
    }
}

/// The artifacts of a target directory with the canonical path `canonical_root`, the contract
/// model `info`, the files `files`, and for the candidates of each circuit the canonical places
/// `places`.
pub fn scan(
    canonical_root: &Option<String>,
    info: ContractInfo,
    files: Vec<String>,
    places: &Vec<Places>,
) -> (r: Artifacts)
    requires
        places.len() == info.circuits.len(),
    ensures
        r.contract_info == info,
        order::in_order(text::views(r.files@)),
        text::views(r.files@).to_multiset() == text::views(files@).to_multiset(),
        r.circuits.len() == info.circuits.len(),
        forall|i: int|
            0 <= i < r.circuits.len() ==> (#[trigger] r.circuits@[i])@ == circuit_artifact(
                info.circuits@[i],
                text::opt_view(*canonical_root),
                places@[i],
            ),
        r.proving_keys <==> exists|i: int|
            0 <= i < r.circuits.len() && (#[trigger] r.circuits@[i]).prover_key is Some,
{
    let files = sort_texts(files);
    let root = match canonical_root {
        Some(t) => AbsPath::parse(t.as_str()),
        None => None,
    };
    let mut circuits: Vec<CircuitArtifact> = Vec::new();
    let mut proving_keys: bool = false;
    let mut i: usize = 0;
    while i < info.circuits.len()
        invariant
            i <= info.circuits.len(),
            places.len() == info.circuits.len(),
            circuits.len() == i,
            match root {
                Some(b) => text::opt_view(*canonical_root) matches Some(t) && path::canonical(t)
                    && b@ == path::names_of(path::components(t)),
                None => text::opt_view(*canonical_root) matches Some(t) ==> !path::canonical(t),
            },
            forall|j: int|
                0 <= j < i ==> (#[trigger] circuits@[j])@ == circuit_artifact(
                    info.circuits@[j],
                    text::opt_view(*canonical_root),
                    places@[j],
                ),
            proving_keys <==> exists|j: int|
                0 <= j < i && (#[trigger] circuits@[j]).prover_key is Some,
        decreases info.circuits.len() - i,
    {
        let c = &info.circuits[i];
        let found = match candidates(c.name.as_str()) {
            Some(paths) => CircuitArtifact {
                name: c.name.clone(),
                proof: c.proof,
                zkir: keep_if(inside(&root, &places[i].zkir), paths.zkir),
                bzkir: keep_if(inside(&root, &places[i].bzkir), paths.bzkir),
                prover_key: keep_if(inside(&root, &places[i].prover_key), paths.prover_key),
                verifier_key: keep_if(inside(&root, &places[i].verifier_key), paths.verifier_key),
            },
            None => CircuitArtifact {
                name: c.name.clone(),
                proof: c.proof,
                zkir: None,
                bzkir: None,
                prover_key: None,
                verifier_key: None,
            },
        };
        let has_key = found.prover_key.is_some();
        let ghost before = circuits@;
        circuits.push(found);
        proof {
            assert(circuits@[i as int]@ == circuit_artifact(
                info.circuits@[i as int],
                text::opt_view(*canonical_root),
                places@[i as int],
            ));
            if proving_keys {
                let j = choose|j: int| 0 <= j < i && (#[trigger] before[j]).prover_key is Some;
                assert(circuits@[j].prover_key is Some);
            }
            if has_key {
                assert(circuits@[i as int].prover_key is Some);
            }
        }
        if has_key {
            proving_keys = true;
        }
        i = i + 1;
    }
    Artifacts { contract_info: info, proving_keys, files, circuits }
}

/// No artifact is shown that lies outside the target directory, or for a circuit whose name
/// could lead out of it.
pub proof fn law_shown_artifacts_lie_in_the_target_directory(
    c: Circuit,
    root: Option<Seq<char>>,
    places: Places,
)
    ensures
        ({
            let a = circuit_artifact(c, root, places);
            &&& a.zkir is Some ==> path::plain_name(c.name@) && lies_in(
                root,
                text::opt_view(places.zkir),
            )
            &&& a.bzkir is Some ==> path::plain_name(c.name@) && lies_in(
                root,
                text::opt_view(places.bzkir),
            )
            &&& a.prover_key is Some ==> path::plain_name(c.name@) && lies_in(
                root,
                text::opt_view(places.prover_key),
            )
            &&& a.verifier_key is Some ==> path::plain_name(c.name@) && lies_in(
                root,
                text::opt_view(places.verifier_key),
            )
        }),
{
}

/// What the compiler made for a circuit is found where the compiler puts it: the circuit's name
/// with its own ending, in the directory for its kind. Whatever exists in the target directory is
/// told, and whatever does not is told as absent.
pub proof fn law_artifacts_are_found_where_they_are(
    c: Circuit,
    root: Seq<Seq<char>>,
    places: Places,
)
    requires
        path::plain_name(c.name@),
        path::plain_names(root),
    ensures
        ({
            let a = circuit_artifact(c, Some(path::render(root)), places);
            let n = c.name@;
            &&& a.name == n
            &&& a.proof == c.proof
            &&& places.zkir is None ==> a.zkir is None
            &&& places.bzkir is None ==> a.bzkir is None
            &&& places.prover_key is None ==> a.prover_key is None
            &&& places.verifier_key is None ==> a.verifier_key is None
            &&& in_dir(root, places.zkir) ==> a.zkir == Some("zkir/"@ + n + ".zkir"@)
            &&& in_dir(root, places.bzkir) ==> a.bzkir == Some("zkir/"@ + n + ".bzkir"@)
            &&& in_dir(root, places.prover_key) ==> a.prover_key == Some(
                "keys/"@ + n + ".prover"@,
            )
            &&& in_dir(root, places.verifier_key) ==> a.verifier_key == Some(
                "keys/"@ + n + ".verifier"@,
            )
        }),
{
    path::law_rendered_path_parses_back(root);
    lemma_in_dir(root, places.zkir);
    lemma_in_dir(root, places.bzkir);
    lemma_in_dir(root, places.prover_key);
    lemma_in_dir(root, places.verifier_key);
    reveal_strlit("zkir");
    reveal_strlit("zkir/");
    reveal_strlit(".zkir");
    reveal_strlit("bzkir");
    reveal_strlit(".bzkir");
    reveal_strlit("keys");
    reveal_strlit("keys/");
    reveal_strlit("prover");
    reveal_strlit(".prover");
    reveal_strlit("verifier");
    reveal_strlit(".verifier");
    reveal_strlit("/");
    reveal_strlit(".");
    assert("zkir/"@ =~= "zkir"@ + "/"@);
    assert("keys/"@ =~= "keys"@ + "/"@);
    assert(".zkir"@ =~= "."@ + "zkir"@);
    assert(".bzkir"@ =~= "."@ + "bzkir"@);
    assert(".prover"@ =~= "."@ + "prover"@);
    assert(".verifier"@ =~= "."@ + "verifier"@);
    let n = c.name@;
    assert("zkir/"@ + n + ".zkir"@ =~= candidate("zkir"@, n, "zkir"@));
    assert("zkir/"@ + n + ".bzkir"@ =~= candidate("zkir"@, n, "bzkir"@));
    assert("keys/"@ + n + ".prover"@ =~= candidate("keys"@, n, "prover"@));
    assert("keys/"@ + n + ".verifier"@ =~= candidate("keys"@, n, "verifier"@));
}

/// Whether a file exists and lies below a directory.
pub open spec fn in_dir(root: Seq<Seq<char>>, place: Option<String>) -> bool {
    exists|names: Seq<Seq<char>>|
        path::plain_names(names) && root.is_prefix_of(names) && text::opt_view(place) == Some(
            #[trigger] path::render(names),
        )
}

proof fn lemma_in_dir(root: Seq<Seq<char>>, place: Option<String>)
    requires
        path::plain_names(root),
    ensures
        in_dir(root, place) ==> lies_in(Some(path::render(root)), text::opt_view(place)),
{
    if in_dir(root, place) {
        let names = choose|names: Seq<Seq<char>>|
            path::plain_names(names) && root.is_prefix_of(names) && text::opt_view(place) == Some(
                #[trigger] path::render(names),
            );
        path::law_rendered_path_parses_back(root);
        path::law_rendered_path_parses_back(names);
    }
}

/// An artifact that is elsewhere is not told, whatever it is called: one whose place is not below
/// the target directory's.
pub proof fn law_artifacts_elsewhere_are_not_told(
    c: Circuit,
    root: Seq<Seq<char>>,
    names: Seq<Seq<char>>,
    places: Places,
)
    requires
        path::plain_names(root),
        path::plain_names(names),
        !root.is_prefix_of(names),
    ensures
        ({
            let a = circuit_artifact(c, Some(path::render(root)), places);
            let there = Some(path::render(names));
            &&& text::opt_view(places.zkir) == there ==> a.zkir is None
            &&& text::opt_view(places.bzkir) == there ==> a.bzkir is None
            &&& text::opt_view(places.prover_key) == there ==> a.prover_key is None
            &&& text::opt_view(places.verifier_key) == there ==> a.verifier_key is None
        }),
{
    path::law_rendered_path_parses_back(root);
    path::law_rendered_path_parses_back(names);
}

/// A file that is not there is a missing artifact and nothing else is; every other failure is
/// passed on as it was told. One over the limit is told as malformed, with the limit.
pub proof fn law_failed_reads_are_told(path: Seq<char>, kind: IoKind, message: Seq<char>)
    ensures
        kind == IoKind::NotFound <==> read_failure(path, kind, message)
            == ErrorView::ArtifactMissing(path),
        kind != IoKind::NotFound ==> read_failure(path, kind, message) == ErrorView::Io(
            kind,
            message,
        ),
        over_limit(path) == (ErrorView::MalformedArtifact {
            path,
            reason: "artifact exceeds maximum size (limit "@ + text::dec(67_108_864) + " bytes)"@,
        }),
{
}

/// An entry of the target directory goes by its name, and one of a directory below it by that
/// directory, a slash and its name.
pub proof fn law_entries_go_by_their_path(dir: Seq<char>, name: Seq<char>)
    ensures
        entry_path(Seq::<char>::empty(), name) == name,
        dir.len() > 0 ==> entry_path(dir, name) == dir + "/"@ + name,
{
}

/// The artifacts of a circuit are seen as they are, each under its own name.
pub proof fn law_artifacts_are_seen_as_they_are(c: CircuitArtifact)
    ensures
        c@.name == c.name@,
        c@.proof == c.proof,
        c@.zkir == text::opt_view(c.zkir),
        c@.bzkir == text::opt_view(c.bzkir),
        c@.prover_key == text::opt_view(c.prover_key),
        c@.verifier_key == text::opt_view(c.verifier_key),
{
}

/// Every entry of a directory is noted once, in its order: a directory to be listed, a file as
/// found, and a link not at all.
pub proof fn law_every_entry_is_noted_once(
    w: WalkView,
    dir: Seq<char>,
    entries: Seq<(Seq<char>, EntryKind)>,
    k: int,
)
    requires
        0 <= k < entries.len(),
    ensures
        ({
            let before = noted(w, dir, entries, k);
            let after = noted(w, dir, entries, k + 1);
            let p = entry_path(dir, entries[k].0);
            &&& noted(w, dir, entries, 0) == w
            &&& after.listed == before.listed
            &&& after.pending == if entries[k].1 == EntryKind::Directory {
                before.pending.push(p)
            } else {
                before.pending
            }
            &&& after.files == if entries[k].1 == EntryKind::File {
                before.files.push(p)
            } else {
                before.files
            }
        }),
{
}

} // verus!
