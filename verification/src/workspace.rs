//! The single gate between tool arguments and the file system.
//!
//! Whether a path lies in the workspace depends on what the file system holds, so each check
//! is a walk: it names a path to look at, is told what is there, and either asks for another
//! or gives its verdict.

use vstd::prelude::*;

use crate::error::{CoreError, ErrorView, IoError, IoKind};
use crate::path::{
    join, parse_components, prefix_text, AbsPath, Component, ComponentView,
};
use crate::path;
use crate::text;

verus! {

broadcast use vstd::string::group_string_axioms;

/// The directory that no tool may leave.
#[derive(Debug)]
pub struct Workspace {
    root: AbsPath,
}

impl View for Workspace {
    type V = Seq<Seq<char>>;

    /// The names in the root's path.
    closed spec fn view(&self) -> Seq<Seq<char>> {
        self.root@
    }
}

/// What the file system says of a path.
pub enum Probe {
    /// The path exists; its canonical text, free of symbolic links.
    Canonical(String),
    /// The path cannot be resolved, and its last component is a symbolic link.
    BrokenLink,
    /// The path cannot be resolved, and its last component is no symbolic link.
    Absent,
}

/// What a [`Probe`] says.
pub enum ProbeView {
    Canonical(Seq<char>),
    BrokenLink,
    Absent,
}

impl View for Probe {
    type V = ProbeView;

    open spec fn view(&self) -> ProbeView {
        match self {
            Probe::Canonical(t) => ProbeView::Canonical(t@),
            Probe::BrokenLink => ProbeView::BrokenLink,
            Probe::Absent => ProbeView::Absent,
        }
    }
}

// ---------------------------------------------------------------------------
// Resolving a path: model
// ---------------------------------------------------------------------------

/// A path that is being resolved: its text, its components, and how many of them have not
/// been given up as absent.
pub struct ResolvingView {
    pub root: Seq<Seq<char>>,
    pub joined: Seq<char>,
    pub components: Seq<ComponentView>,
    pub kept: int,
}

/// The start of resolving `p` in the workspace `root`.
pub open spec fn start_resolving(root: Seq<Seq<char>>, p: Seq<char>) -> ResolvingView {
    let joined = path::join_text(path::render(root), p);
    ResolvingView {
        root,
        joined,
        components: path::components(joined),
        kept: path::components(joined).len() as int,
    }
}

/// The path to look at next: first the whole path, then ever shorter prefixes.
pub open spec fn probed_text(s: ResolvingView) -> Seq<char> {
    path::absolute_text(s.components.take(s.kept))
}

/// What resolving a path comes to: the names of a path in the workspace, or the path that
/// escapes it.
pub type Resolved = Result<Seq<Seq<char>>, Seq<char>>;

/// Whether there is a `..` among the components.
pub open spec fn climbs(cs: Seq<ComponentView>) -> bool {
    exists|i: int| 0 <= i < cs.len() && #[trigger] cs[i] is ParentDir
}

/// What follows once the existing part of the path is known to be `base`: the absent part is
/// appended lexically, and the whole must lie in the root. Where the absent part holds a `..`,
/// the path that results may exist, and is resolved in turn.
pub open spec fn based(s: ResolvingView, base: Seq<char>) -> Result<ResolvingView, Resolved> {
    let tail = s.components.skip(s.kept);
    if !path::canonical(base) {
        Err(Err(s.joined))
    } else {
        match path::lexical(path::names_of(path::components(base)), tail) {
            None => Err(Err(s.joined)),
            Some(names) => if !s.root.is_prefix_of(names) {
                Err(Err(path::render(names)))
            } else if climbs(tail) {
                Ok(start_resolving(s.root, path::render(names)))
            } else {
                Err(Ok(names))
            },
        }
    }
}

/// What follows from one look at the file system: a verdict, or another look, most often at the
/// path without its last component.
pub open spec fn resolve_step(s: ResolvingView, probe: ProbeView) -> Result<ResolvingView, Resolved> {
    match probe {
        ProbeView::Canonical(base) => based(s, base),
        ProbeView::BrokenLink => Err(Err(s.joined)),
        ProbeView::Absent => if s.kept == 0 {
            Err(Err(s.joined))
        } else {
            Ok(with_kept(s, s.kept - 1))
        },
    }
}

/// The same walk when only the first `kept` components are left.
pub open spec fn with_kept(s: ResolvingView, kept: int) -> ResolvingView {
    ResolvingView { kept, ..s }
}

/// What resolving comes to where the file system answers as `files` does.
pub open spec fn resolve_run(s: ResolvingView, files: spec_fn(Seq<char>) -> ProbeView) -> Resolved
    decreases
            (if climbs(s.components) {
                1int
            } else {
                0
            }),
            s.kept,
{
    match resolve_step(s, files(probed_text(s))) {
        Err(r) => r,
        Ok(next) => if (next.components == s.components && 0 <= next.kept < s.kept) || (climbs(
            s.components,
        ) && !climbs(next.components)) {
            resolve_run(next, files)
        } else {
            Err(s.joined)
        },
    }
}

// ---------------------------------------------------------------------------
// Resolving a path: laws
// ---------------------------------------------------------------------------

/// Whatever the path and whatever the file system holds, what resolving lets through lies in
/// the root, and is made of plain names.
pub proof fn law_resolved_paths_stay_inside(
    root: Seq<Seq<char>>,
    p: Seq<char>,
    files: spec_fn(Seq<char>) -> ProbeView,
)
    ensures
        resolve_run(start_resolving(root, p), files) matches Ok(names) ==> {
            &&& root.is_prefix_of(names)
            &&& path::plain_names(names)
        },
{
    lemma_run_stays_inside(start_resolving(root, p), files);
}

proof fn lemma_run_stays_inside(s: ResolvingView, files: spec_fn(Seq<char>) -> ProbeView)
    requires
        s.components == path::components(s.joined),
        0 <= s.kept <= s.components.len(),
    ensures
        resolve_run(s, files) matches Ok(names) ==> {
            &&& s.root.is_prefix_of(names)
            &&& path::plain_names(names)
        },
    decreases
            (if climbs(s.components) {
                1int
            } else {
                0
            }),
            s.kept,
{
    match files(probed_text(s)) {
        ProbeView::Canonical(base) => {
            if path::canonical(base) {
                lemma_based_names(s, base);
                let tail = s.components.skip(s.kept);
                if let Some(names) = path::lexical(
                    path::names_of(path::components(base)),
                    tail,
                ) {
                    lemma_next_does_not_climb(s.root, names);
                    if climbs(tail) {
                        lemma_tail_climbs(s);
                        lemma_run_stays_inside(start_resolving(s.root, path::render(names)), files);
                    }
                }
            }
        },
        ProbeView::BrokenLink => {},
        ProbeView::Absent => {
            if s.kept > 0 {
                lemma_run_stays_inside(with_kept(s, s.kept - 1), files);
            }
        },
    }
}

proof fn lemma_tail_climbs(s: ResolvingView)
    requires
        0 <= s.kept <= s.components.len(),
        climbs(s.components.skip(s.kept)),
    ensures
        climbs(s.components),
{
    let tail = s.components.skip(s.kept);
    let i = choose|i: int| 0 <= i < tail.len() && #[trigger] tail[i] is ParentDir;
    assert(s.components[s.kept + i] is ParentDir);
}

/// What is appended to an existing part is made of plain names.
proof fn lemma_based_names(s: ResolvingView, base: Seq<char>)
    requires
        s.components == path::components(s.joined),
        0 <= s.kept <= s.components.len(),
        path::canonical(base),
    ensures
        path::plain_names(path::names_of(path::components(base))),
        path::lexical(
            path::names_of(path::components(base)),
            s.components.skip(s.kept),
        ) matches Some(names) ==> path::plain_names(names),
{
    let names = path::names_of(path::components(base));
    path::lemma_component_names_plain(base);
    path::lemma_component_names_plain(s.joined);
    assert forall|i: int| 0 <= i < names.len() implies path::plain_name(#[trigger] names[i]) by {
        assert(path::components(base)[i] is Normal);
    }
    let tail = s.components.skip(s.kept);
    assert forall|i: int| 0 <= i < tail.len() implies (#[trigger] tail[i] matches
        ComponentView::Normal(n) ==> path::plain_name(n)) by {
        assert(tail[i] == s.components[s.kept + i]);
    }
    lemma_lexical_keeps_plain(names, tail);
}

/// A path of plain names is resolved as it is, and holds no `..`.
proof fn lemma_next_does_not_climb(root: Seq<Seq<char>>, names: Seq<Seq<char>>)
    requires
        path::plain_names(names),
    ensures
        start_resolving(root, path::render(names)) == (ResolvingView {
            root,
            joined: path::render(names),
            components: path::as_components(names),
            kept: names.len() as int,
        }),
        !climbs(path::as_components(names)),
{
    path::law_rendered_path_parses_back(names);
}

proof fn lemma_lexical_keeps_plain(base: Seq<Seq<char>>, tail: Seq<ComponentView>)
    requires
        path::plain_names(base),
        forall|i: int|
            0 <= i < tail.len() ==> (#[trigger] tail[i] matches ComponentView::Normal(n)
                ==> path::plain_name(n)),
    ensures
        path::lexical(base, tail) matches Some(names) ==> path::plain_names(names),
    decreases tail.len(),
{
    if tail.len() > 0 {
        let before = tail.drop_last();
        assert forall|i: int| 0 <= i < before.len() implies (#[trigger] before[i] matches
            ComponentView::Normal(n) ==> path::plain_name(n)) by {
            assert(before[i] == tail[i]);
        }
        lemma_lexical_keeps_plain(base, before);
        assert(tail[tail.len() - 1] == tail.last());
    }
}

/// Names put behind a path lexically are appended.
proof fn lemma_lexical_names(base: Seq<Seq<char>>, tail: Seq<ComponentView>)
    requires
        forall|i: int| 0 <= i < tail.len() ==> #[trigger] tail[i] is Normal,
    ensures
        path::lexical(base, tail) == Some(base + path::names_of(tail)),
    decreases tail.len(),
{
    if tail.len() == 0 {
        assert(base + path::names_of(tail) =~= base);
    } else {
        let before = tail.drop_last();
        assert forall|i: int| 0 <= i < before.len() implies #[trigger] before[i] is Normal by {
            assert(before[i] == tail[i]);
        }
        lemma_lexical_names(base, before);
        assert(tail[tail.len() - 1] is Normal);
        assert(base + path::names_of(tail) =~= (base + path::names_of(before)).push(
            tail.last()->Normal_0,
        ));
    }
}

proof fn lemma_joined_is_absolute(root: Seq<Seq<char>>, p: Seq<char>)
    requires
        path::plain_names(root),
    ensures
        path::absolute(path::join_text(path::render(root), p)),
{
    path::law_rendered_path_parses_back(root);
    if !path::absolute(p) {
        assert(path::join_text(path::render(root), p)[0] == path::render(root)[0]);
    }
}

/// A relative path stands for the path behind the root, however it is spelled.
pub proof fn law_relative_paths_start_at_the_root(root: Seq<Seq<char>>, p: Seq<char>)
    requires
        path::plain_names(root),
    ensures
        start_resolving(root, path::join_text(path::render(root), p)) == start_resolving(root, p),
{
    lemma_joined_is_absolute(root, p);
}

/// A path that runs into a symbolic link that cannot be resolved is refused, even where the
/// link lies in the root: it does not matter how many components behind the link are absent.
pub proof fn law_broken_links_are_refused(
    root: Seq<Seq<char>>,
    p: Seq<char>,
    files: spec_fn(Seq<char>) -> ProbeView,
    k: int,
)
    requires
        0 <= k <= start_resolving(root, p).kept,
        files(probed_text(with_kept(start_resolving(root, p), k))) is BrokenLink,
        forall|j: int|
            k < j <= start_resolving(root, p).kept ==> files(
                probed_text(#[trigger] with_kept(start_resolving(root, p), j)),
            ) is Absent,
    ensures
        resolve_run(start_resolving(root, p), files) == Err::<Seq<Seq<char>>, Seq<char>>(
            start_resolving(root, p).joined,
        ),
{
    let s = start_resolving(root, p);
    assert(with_kept(s, s.kept) == s);
    lemma_run_goes_down(s, files, s.kept, k);
}

/// A run over absent prefixes comes to what it comes to at the first that is not.
proof fn lemma_run_goes_down(
    s: ResolvingView,
    files: spec_fn(Seq<char>) -> ProbeView,
    kept: int,
    k: int,
)
    requires
        0 <= k <= kept,
        forall|j: int|
            k < j <= kept ==> files(probed_text(#[trigger] with_kept(s, j))) is Absent,
    ensures
        resolve_run(with_kept(s, kept), files) == resolve_run(with_kept(s, k), files),
    decreases kept,
{
    if k < kept {
        assert(files(probed_text(with_kept(s, kept))) is Absent);
        lemma_run_goes_down(s, files, kept - 1, k);
    }
}

/// Where a path exists, the verdict depends on its canonical place alone: a link inside the
/// root that leads outside it is refused, and an absolute path inside the root is let
/// through.
pub proof fn law_existing_paths_go_by_their_canonical_place(
    root: Seq<Seq<char>>,
    p: Seq<char>,
    files: spec_fn(Seq<char>) -> ProbeView,
    place: Seq<Seq<char>>,
)
    requires
        path::plain_names(place),
        files(probed_text(start_resolving(root, p))) == ProbeView::Canonical(path::render(place)),
    ensures
        resolve_run(start_resolving(root, p), files) == if root.is_prefix_of(place) {
            Ok::<Seq<Seq<char>>, Seq<char>>(place)
        } else {
            Err(path::render(place))
        },
{
    path::law_rendered_path_parses_back(place);
    let s = start_resolving(root, p);
    assert(s.components.skip(s.kept) =~= Seq::<ComponentView>::empty());
    assert(path::lexical(place, Seq::<ComponentView>::empty()) == Some(place));
}

/// What a file system says of the path with these components.
pub open spec fn at(files: spec_fn(Seq<char>) -> ProbeView, cs: Seq<ComponentView>) -> ProbeView {
    files(path::absolute_text(cs))
}

/// A file system in which the root exists and no entry of it does: a path into the root by a
/// name cannot be resolved.
pub open spec fn empty_root(root: Seq<Seq<char>>, files: spec_fn(Seq<char>) -> ProbeView) -> bool {
    let names = path::as_components(root);
    &&& at(files, names) == ProbeView::Canonical(path::render(root))
    &&& forall|cs: Seq<ComponentView>|
        cs.len() > names.len() && names.is_prefix_of(cs) && cs[names.len() as int] is Normal
            ==> #[trigger] at(files, cs) is Absent
}

/// In an empty root a path that starts with a name is taken lexically: `..` takes away the
/// component before it, what stays in the root is let through, and what climbs out of it is
/// refused.
pub proof fn law_absent_paths_are_taken_lexically(
    root: Seq<Seq<char>>,
    p: Seq<char>,
    files: spec_fn(Seq<char>) -> ProbeView,
)
    requires
        path::plain_names(root),
        empty_root(root, files),
        !path::absolute(p),
        path::components(p).len() > 0,
        path::components(p)[0] is Normal,
    ensures
        resolve_run(start_resolving(root, p), files) == match path::lexical(
            root,
            path::components(p),
        ) {
            None => Err::<Seq<Seq<char>>, Seq<char>>(path::join_text(path::render(root), p)),
            Some(names) => if root.is_prefix_of(names) {
                Ok(names)
            } else {
                Err(path::render(names))
            },
        },
{
    path::law_rendered_path_parses_back(root);
    path::lemma_starts_with_name(p);
    path::lemma_join_components(path::render(root), p);
    lemma_lexical_run(start_resolving(root, p), path::components(p), files);
}

proof fn lemma_lexical_run(
    s: ResolvingView,
    tail: Seq<ComponentView>,
    files: spec_fn(Seq<char>) -> ProbeView,
)
    requires
        path::plain_names(s.root),
        empty_root(s.root, files),
        tail.len() > 0 ==> tail[0] is Normal,
        s.components == path::components(s.joined),
        s.components == path::as_components(s.root) + tail,
        s.root.len() <= s.kept <= s.components.len(),
    ensures
        resolve_run(s, files) == match path::lexical(s.root, tail) {
            None => Err::<Seq<Seq<char>>, Seq<char>>(s.joined),
            Some(names) => if s.root.is_prefix_of(names) {
                Ok(names)
            } else {
                Err(path::render(names))
            },
        },
    decreases
            (if climbs(s.components) {
                1int
            } else {
                0
            }),
            s.kept,
{
    let cs = path::as_components(s.root);
    let head = s.components.take(s.kept);
    if s.kept > s.root.len() {
        assert(cs.is_prefix_of(head)) by {
            assert(cs =~= head.take(cs.len() as int));
        }
        assert(head[cs.len() as int] == tail[0]);
        assert(at(files, head) is Absent);
        lemma_lexical_run(with_kept(s, s.kept - 1), tail, files);
    } else {
        assert(head =~= cs);
        assert(s.components.skip(s.kept) =~= tail);
        assert(at(files, head) == ProbeView::Canonical(path::render(s.root)));
        path::law_rendered_path_parses_back(s.root);
        lemma_based_names(s, path::render(s.root));
        if let Some(names) = path::lexical(s.root, tail) {
            if s.root.is_prefix_of(names) && climbs(tail) {
                lemma_tail_climbs(s);
                lemma_next_does_not_climb(s.root, names);
                let next = start_resolving(s.root, path::render(names));
                let rest = path::as_components(names.skip(s.root.len() as int));
                assert(next.components =~= cs + rest);
                lemma_lexical_names(s.root, rest);
                assert(s.root + path::names_of(rest) =~= names);
                path::law_rendered_path_parses_back(names);
                lemma_lexical_run(next, rest, files);
            }
        }
    }
}

/// What holds of the answers of a file system that does not change: a canonical place is made
/// of plain names and is its own place; an entry reached through a path is the entry reached
/// through the path's canonical place; and there is no entry in what does not exist.
pub open spec fn file_system(files: spec_fn(Seq<char>) -> ProbeView) -> bool {
    &&& forall|cs: Seq<ComponentView>| #[trigger]
        at(files, cs) matches ProbeView::Canonical(b) ==> is_place(files, b)
    &&& forall|cs: Seq<ComponentView>, place: Seq<Seq<char>>, n: Seq<char>|
        path::plain_names(place) && path::plain_name(n) && at(files, cs) == ProbeView::Canonical(
            path::render(place),
        ) ==> #[trigger] at(files, cs.push(ComponentView::Normal(n))) == at(
            files,
            #[trigger] path::as_components(place).push(ComponentView::Normal(n)),
        )
    &&& forall|cs: Seq<ComponentView>, n: Seq<char>|
        path::plain_name(n) && !(at(files, cs) is Canonical) ==> #[trigger] at(
            files,
            cs.push(ComponentView::Normal(n)),
        ) is Absent
}

/// Whether a text is the canonical text of a path that is its own place.
pub open spec fn is_place(files: spec_fn(Seq<char>) -> ProbeView, b: Seq<char>) -> bool {
    exists|names: Seq<Seq<char>>|
        path::plain_names(names) && b == path::render(names) && #[trigger] at(
            files,
            path::as_components(names),
        ) == ProbeView::Canonical(b)
}

/// Whether the first `k` names of a path are its own place and what is behind them is absent.
pub open spec fn rests_at(
    files: spec_fn(Seq<char>) -> ProbeView,
    names: Seq<Seq<char>>,
    k: int,
) -> bool {
    &&& 0 <= k <= names.len()
    &&& at(files, path::as_components(names.take(k))) == ProbeView::Canonical(
        path::render(names.take(k)),
    )
    &&& forall|j: int|
        k < j <= names.len() ==> at(
            files,
            path::as_components(#[trigger] names.take(j)),
        ) is Absent
}

/// What resolving lets through rests on a place in the file system.
proof fn lemma_resolved_rests(s: ResolvingView, files: spec_fn(Seq<char>) -> ProbeView) -> (k: int)
    requires
        file_system(files),
        path::absolute(s.joined),
        s.components == path::components(s.joined),
        0 <= s.kept <= s.components.len(),
        s.kept < s.components.len() ==> at(files, s.components.take(s.kept + 1)) is Absent,
        resolve_run(s, files) is Ok,
    ensures
        path::plain_names(resolve_run(s, files)->Ok_0),
        rests_at(files, resolve_run(s, files)->Ok_0, k),
    decreases
            (if climbs(s.components) {
                1int
            } else {
                0
            }),
            s.kept,
{
    lemma_run_stays_inside(s, files);
    let q = resolve_run(s, files)->Ok_0;
    let head = s.components.take(s.kept);
    match at(files, head) {
        ProbeView::Canonical(b) => {
            let place = choose|names: Seq<Seq<char>>|
                path::plain_names(names) && b == path::render(names) && #[trigger] at(
                    files,
                    path::as_components(names),
                ) == ProbeView::Canonical(b);
            assert(is_place(files, b));
            path::law_rendered_path_parses_back(place);
            lemma_based_names(s, b);
            let tail = s.components.skip(s.kept);
            if climbs(tail) {
                let names = path::lexical(place, tail)->Some_0;
                lemma_tail_climbs(s);
                lemma_next_does_not_climb(s.root, names);
                path::law_rendered_path_parses_back(names);
                lemma_resolved_rests(start_resolving(s.root, path::render(names)), files)
            } else {
                path::lemma_joined_components_proper(s.joined);
                lemma_absolute_tail(s);
                lemma_lexical_names(place, tail);
                assert(q == place + path::names_of(tail));
                assert(q.take(place.len() as int) =~= place);
                lemma_rest_is_absent(files, s, place, q);
                place.len() as int
            }
        },
        ProbeView::BrokenLink => 0,
        ProbeView::Absent => lemma_resolved_rests(with_kept(s, s.kept - 1), files),
    }
}

/// An absent part without `..` is made of names.
proof fn lemma_absolute_tail(s: ResolvingView)
    requires
        0 <= s.kept <= s.components.len(),
        !climbs(s.components.skip(s.kept)),
        path::all_proper(s.components),
    ensures
        forall|i: int|
            0 <= i < s.components.skip(s.kept).len() ==> #[trigger] s.components.skip(s.kept)[i] is Normal,
{
    let tail = s.components.skip(s.kept);
    assert forall|i: int| 0 <= i < tail.len() implies #[trigger] tail[i] is Normal by {
        assert(path::proper(s.components[s.kept + i]));
        assert(!(tail[i] is ParentDir));
    }
}

/// What was absent behind a path is absent behind its place.
proof fn lemma_rest_is_absent(
    files: spec_fn(Seq<char>) -> ProbeView,
    s: ResolvingView,
    place: Seq<Seq<char>>,
    q: Seq<Seq<char>>,
)
    requires
        file_system(files),
        path::plain_names(q),
        path::plain_names(place),
        0 <= s.kept <= s.components.len(),
        at(files, s.components.take(s.kept)) == ProbeView::Canonical(path::render(place)),
        s.kept < s.components.len() ==> at(files, s.components.take(s.kept + 1)) is Absent,
        forall|i: int|
            0 <= i < s.components.skip(s.kept).len() ==> #[trigger] s.components.skip(s.kept)[i] is Normal,
        q == place + path::names_of(s.components.skip(s.kept)),
    ensures
        forall|j: int|
            place.len() < j <= q.len() ==> at(
                files,
                path::as_components(#[trigger] q.take(j)),
            ) is Absent,
{
    assert forall|j: int| place.len() < j <= q.len() implies at(
        files,
        path::as_components(#[trigger] q.take(j)),
    ) is Absent by {
        lemma_rest_is_absent_to(files, s, place, q, j);
    }
}

proof fn lemma_rest_is_absent_to(
    files: spec_fn(Seq<char>) -> ProbeView,
    s: ResolvingView,
    place: Seq<Seq<char>>,
    q: Seq<Seq<char>>,
    j: int,
)
    requires
        file_system(files),
        path::plain_names(q),
        path::plain_names(place),
        0 <= s.kept <= s.components.len(),
        at(files, s.components.take(s.kept)) == ProbeView::Canonical(path::render(place)),
        s.kept < s.components.len() ==> at(files, s.components.take(s.kept + 1)) is Absent,
        forall|i: int|
            0 <= i < s.components.skip(s.kept).len() ==> #[trigger] s.components.skip(s.kept)[i] is Normal,
        q == place + path::names_of(s.components.skip(s.kept)),
        place.len() < j <= q.len(),
    ensures
        at(files, path::as_components(q.take(j))) is Absent,
    decreases j,
{
    let n = q[j - 1];
    assert(path::plain_name(n));
    assert(path::as_components(q.take(j)) =~= path::as_components(q.take(j - 1)).push(
        ComponentView::Normal(n),
    ));
    if j == place.len() + 1 {
        let tail = s.components.skip(s.kept);
        assert(tail[0] is Normal);
        assert(n == tail[0]->Normal_0);
        assert(s.components.take(s.kept + 1) =~= s.components.take(s.kept).push(
            ComponentView::Normal(n),
        ));
        assert(q.take(j - 1) =~= place);
        assert(at(files, s.components.take(s.kept).push(ComponentView::Normal(n))) == at(
            files,
            path::as_components(place).push(ComponentView::Normal(n)),
        ));
    } else {
        lemma_rest_is_absent_to(files, s, place, q, j - 1);
    }
}

/// What resolving lets through, resolved again, comes to the same path, whether or not it
/// exists: no link is left in it that could lead elsewhere, however the path was spelled.
pub proof fn law_resolving_again_changes_nothing(
    root: Seq<Seq<char>>,
    p: Seq<char>,
    files: spec_fn(Seq<char>) -> ProbeView,
)
    requires
        file_system(files),
        path::plain_names(root),
        resolve_run(start_resolving(root, p), files) is Ok,
    ensures
        ({
            let q = resolve_run(start_resolving(root, p), files)->Ok_0;
            resolve_run(start_resolving(root, path::render(q)), files) == Ok::<
                Seq<Seq<char>>,
                Seq<char>,
            >(q)
        }),
{
    let s = start_resolving(root, p);
    let q = resolve_run(s, files)->Ok_0;
    lemma_joined_is_absolute(root, p);
    let k = lemma_resolved_rests(s, files);
    law_resolved_paths_stay_inside(root, p, files);
    lemma_next_does_not_climb(root, q);
    path::law_rendered_path_parses_back(q);
    let t = start_resolving(root, path::render(q));
    assert forall|j: int| k < j <= t.kept implies files(
        probed_text(#[trigger] with_kept(t, j)),
    ) is Absent by {
        assert(t.components.take(j) =~= path::as_components(q.take(j)));
        assert(at(files, path::as_components(q.take(j))) is Absent);
    }
    lemma_run_goes_down(t, files, t.kept, k);
    let u = with_kept(t, k);
    assert(t.components.take(k) =~= path::as_components(q.take(k)));
    let place = q.take(k);
    assert(path::plain_names(place));
    path::law_rendered_path_parses_back(place);
    let tail = t.components.skip(k);
    lemma_lexical_names(place, tail);
    assert(place + path::names_of(tail) =~= q);
    assert(!climbs(tail)) by {
        if climbs(tail) {
            lemma_tail_climbs(u);
        }
    }
}

// ---------------------------------------------------------------------------
// Resolving a path
// ---------------------------------------------------------------------------

/// A path that is being resolved.
#[derive(Debug)]
pub struct Resolving {
    root: AbsPath,
    joined: String,
    components: Vec<Component>,
    kept: usize,
}

impl View for Resolving {
    type V = ResolvingView;

    closed spec fn view(&self) -> ResolvingView {
        ResolvingView {
            root: self.root@,
            joined: self.joined@,
            components: path::component_views(self.components@),
            kept: self.kept as int,
        }
    }
}

/// What follows from one look at the file system.
pub enum ResolveStep {
    /// Look at [`Resolving::path`] next.
    Look(Resolving),
    Done(Result<AbsPath, CoreError>),
}

/// What resolving came to.
pub open spec fn resolved_view(r: Result<AbsPath, CoreError>) -> Result<Seq<Seq<char>>, ErrorView> {
    match r {
        Ok(p) => Ok(p@),
        Err(e) => Err(e@),
    }
}

/// A verdict as it is returned.
pub open spec fn reported(r: Resolved) -> Result<Seq<Seq<char>>, ErrorView> {
    match r {
        Ok(names) => Ok(names),
        Err(t) => Err(ErrorView::PathEscape(t)),
    }
}

/// Whether a step is what the model says it is.
pub open spec fn step_is(r: ResolveStep, v: Result<ResolvingView, Resolved>) -> bool {
    match r {
        ResolveStep::Look(next) => v == Ok::<ResolvingView, Resolved>(next@),
        ResolveStep::Done(res) => v matches Err(u) && resolved_view(res) == reported(u),
    }
}

impl Workspace {
    /// The workspace whose root has this canonical path; a path that is relative or holds a
    /// `..` is none. The path is in POSIX syntax, so one with a drive, as on Windows, is none.
    pub fn new(canonical_root: &str) -> (r: Result<Workspace, CoreError>)
        ensures
            match r {
                Ok(w) => path::canonical(canonical_root@) && w@ == path::names_of(
                    path::components(canonical_root@),
                ),
                Err(e) => !path::canonical(canonical_root@) && e@ == ErrorView::PathEscape(
                    canonical_root@,
                ),
            },
    {
        match AbsPath::parse(canonical_root) {
            Some(root) => Ok(Workspace { root }),
            None => Err(CoreError::PathEscape(canonical_root.to_owned())),
        }
    }

    /// The root.
    pub fn root(&self) -> (r: &AbsPath)
        ensures
            r@ == self@,
    {
        &self.root
    }

    /// A workspace with the same root.
    pub fn duplicate(&self) -> (r: Workspace)
        ensures
            r@ == self@,
    {
        Workspace { root: self.root.duplicate() }
    }

    /// Starts to resolve `p`, taken relative to the root. The path need not exist.
    pub fn resolve(&self, p: &str) -> (r: Resolving)
        ensures
            r@ == start_resolving(self@, p@),
    {
        Resolving::start(self.root.duplicate(), p)
    }
}

impl Resolving {
    #[verifier::type_invariant]
    spec fn parsed(self) -> bool {
        &&& path::component_views(self.components@) == path::components(self.joined@)
        &&& self.kept <= self.components.len()
    }

    fn start(root: AbsPath, p: &str) -> (r: Resolving)
        ensures
            r@ == start_resolving(root@, p@),
    {
        let joined = join(root.text().as_str(), p);
        let components = parse_components(joined.as_str());
        let kept: usize = components.len();
        Resolving { root, joined, components, kept }
    }

    /// The path to look at.
    pub fn path(&self) -> (r: String)
        ensures
            r@ == probed_text(self@),
    {
        proof {
            use_type_invariant(self);
        }
        prefix_text(&self.components, self.kept)
    }

    /// What follows from what the file system says of [`Resolving::path`].
    pub fn step(self, probe: Probe) -> (r: ResolveStep)
        ensures
            step_is(r, resolve_step(self@, probe@)),
    {
        proof {
            use_type_invariant(&self);
        }
        match probe {
            Probe::Canonical(base) => self.settle(base.as_str()),
            Probe::BrokenLink => ResolveStep::Done(Err(CoreError::PathEscape(self.joined))),
            Probe::Absent => {
                if self.kept == 0 {
                    ResolveStep::Done(Err(CoreError::PathEscape(self.joined)))
                } else {
                    let Resolving { root, joined, components, kept } = self;
                    ResolveStep::Look(Resolving { root, joined, components, kept: kept - 1 })
                }
            },
        }
    }

    /// Whether there is a `..` among the components that were given up as absent.
    fn tail_climbs(&self) -> (r: bool)
        ensures
            r == climbs(self@.components.skip(self@.kept)),
    {
        proof {
            use_type_invariant(self);
        }
        let ghost tail = self@.components.skip(self@.kept);
        let mut i: usize = self.kept;
        while i < self.components.len()
            invariant
                self.kept <= i <= self.components.len(),
                tail == path::component_views(self.components@).skip(self.kept as int),
                forall|j: int| 0 <= j < i - self.kept ==> !(#[trigger] tail[j] is ParentDir),
            decreases self.components.len() - i,
        {
            assert(tail[i - self.kept] == self.components@[i as int]@);
            match &self.components[i] {
                Component::ParentDir => {
                    assert(tail[i - self.kept] is ParentDir);
                    return true;
                },
                _ => {},
            }
            i = i + 1;
        }
        false
    }

    fn settle(self, base: &str) -> (r: ResolveStep)
        ensures
            step_is(r, based(self@, base@)),
    {
        proof {
            use_type_invariant(&self);
            path::lemma_component_names_plain(self.joined@);
        }
        match AbsPath::parse(base) {
            None => ResolveStep::Done(Err(CoreError::PathEscape(self.joined))),
            Some(existing) => {
                proof {
                    assert forall|i: int| self.kept <= i < self.components.len() implies (
                    #[trigger] self.components@[i]@ matches ComponentView::Normal(s)
                        ==> path::plain_name(s)) by {
                        assert(path::components(self.joined@)[i] == self.components@[i]@);
                    }
                }
                match existing.extended(&self.components, self.kept) {
                    None => ResolveStep::Done(Err(CoreError::PathEscape(self.joined))),
                    Some(out) => {
                        if !out.starts_with(&self.root) {
                            ResolveStep::Done(Err(CoreError::PathEscape(out.text())))
                        } else if self.tail_climbs() {
                            ResolveStep::Look(Resolving::start(self.root, out.text().as_str()))
                        } else {
                            ResolveStep::Done(Ok(out))
                        }
                    },
                }
            },
        }
    }
}

// ---------------------------------------------------------------------------
// Re-checking a path before a write
// ---------------------------------------------------------------------------

/// What stands at a path, without following a symbolic link at its end.
pub enum Entry {
    Symlink,
    /// A file or directory that is no symbolic link.
    Real,
    NotFound,
    Failed(IoError),
}

/// What an [`Entry`] says.
pub enum EntryView {
    Symlink,
    Real,
    NotFound,
    Failed(IoKind, Seq<char>),
}

impl View for Entry {
    type V = EntryView;

    open spec fn view(&self) -> EntryView {
        match self {
            Entry::Symlink => EntryView::Symlink,
            Entry::Real => EntryView::Real,
            Entry::NotFound => EntryView::NotFound,
            Entry::Failed(e) => EntryView::Failed(e.kind, e.message@),
        }
    }
}

/// What follows from the entry at one prefix of a path that is re-checked.
pub enum SwapNext {
    /// The prefix is absent; look at the one before it.
    Up,
    /// The prefix is no symbolic link.
    Passed,
    Refused(ErrorView),
}

/// What follows from the entry at the first `kept` names of `vetted`.
pub open spec fn swap_step(vetted: Seq<Seq<char>>, kept: int, entry: EntryView) -> SwapNext {
    match entry {
        EntryView::Symlink => SwapNext::Refused(ErrorView::PathEscape(path::render(vetted))),
        EntryView::Real => SwapNext::Passed,
        EntryView::NotFound => if kept <= 0 {
            SwapNext::Refused(ErrorView::PathEscape(path::render(vetted)))
        } else {
            SwapNext::Up
        },
        EntryView::Failed(kind, message) => SwapNext::Refused(ErrorView::Io(kind, message)),
    }
}

/// What a re-check without a root comes to where the entries are as `entries` says.
pub open spec fn swap_run(
    vetted: Seq<Seq<char>>,
    kept: int,
    entries: spec_fn(Seq<char>) -> EntryView,
) -> Result<(), ErrorView>
    decreases kept,
{
    match swap_step(vetted, kept, entries(path::render(vetted.take(kept)))) {
        SwapNext::Passed => Ok(()),
        SwapNext::Refused(e) => Err(e),
        SwapNext::Up => if kept > 0 {
            swap_run(vetted, kept - 1, entries)
        } else {
            Ok(())
        },
    }
}

/// What follows from the canonical place of the first `kept` names of `vetted`; `None` means
/// to look at the prefix before it.
pub open spec fn belt_step(
    root: Seq<Seq<char>>,
    vetted: Seq<Seq<char>>,
    kept: int,
    place: Option<Seq<char>>,
) -> Option<Result<(), ErrorView>> {
    match place {
        Some(t) => if path::canonical(t) && root.is_prefix_of(path::names_of(path::components(t))) {
            Some(Ok(()))
        } else {
            Some(Err(ErrorView::PathEscape(path::render(vetted))))
        },
        None => if kept <= 0 {
            Some(Err(ErrorView::PathEscape(path::render(vetted))))
        } else {
            None
        },
    }
}

/// What the second half of a re-check comes to where existing paths lie as `places` says.
pub open spec fn belt_run(
    root: Seq<Seq<char>>,
    vetted: Seq<Seq<char>>,
    kept: int,
    places: spec_fn(Seq<char>) -> Option<Seq<char>>,
) -> Result<(), ErrorView>
    decreases kept,
{
    match belt_step(root, vetted, kept, places(path::render(vetted.take(kept)))) {
        Some(r) => r,
        None => if kept > 0 {
            belt_run(root, vetted, kept - 1, places)
        } else {
            Ok(())
        },
    }
}

/// What a re-check with the root comes to: both halves must pass.
pub open spec fn revalidate_run(
    root: Seq<Seq<char>>,
    vetted: Seq<Seq<char>>,
    entries: spec_fn(Seq<char>) -> EntryView,
    places: spec_fn(Seq<char>) -> Option<Seq<char>>,
) -> Result<(), ErrorView> {
    match swap_run(vetted, vetted.len() as int, entries) {
        Ok(()) => belt_run(root, vetted, vetted.len() as int, places),
        Err(e) => Err(e),
    }
}

/// The re-check of a path that was resolved before, with the root where it is known.
#[derive(Debug)]
pub struct SwapCheck {
    vetted: AbsPath,
    kept: usize,
    root: Option<AbsPath>,
}

/// The second half of a re-check: the place of the nearest existing ancestor.
#[derive(Debug)]
pub struct BeltCheck {
    vetted: AbsPath,
    kept: usize,
    root: AbsPath,
}

/// What follows from one look at the file system.
pub enum RevalidateStep {
    /// Look at the entry at [`SwapCheck::path`] next.
    Entry(SwapCheck),
    /// Look at the canonical place of [`BeltCheck::path`] next.
    Place(BeltCheck),
    Done(Result<(), CoreError>),
}

impl SwapCheck {
    #[verifier::type_invariant]
    spec fn within(self) -> bool {
        self.kept <= self.vetted@.len()
    }

    pub closed spec fn vetted(&self) -> Seq<Seq<char>> {
        self.vetted@
    }

    pub closed spec fn kept(&self) -> int {
        self.kept as int
    }

    pub closed spec fn root(&self) -> Option<Seq<Seq<char>>> {
        match self.root {
            Some(r) => Some(r@),
            None => None,
        }
    }

    /// The path to look at.
    pub fn path(&self) -> (r: String)
        ensures
            r@ == path::render(self.vetted().take(self.kept())),
            0 <= self.kept() <= self.vetted().len(),
    {
        proof {
            use_type_invariant(self);
        }
        self.vetted.prefix(self.kept).text()
    }

    /// What follows from the entry at [`SwapCheck::path`].
    pub fn step(self, entry: Entry) -> (r: RevalidateStep)
        ensures
            match swap_step(self.vetted(), self.kept(), entry@) {
                SwapNext::Up => r matches RevalidateStep::Entry(c) && c.vetted() == self.vetted()
                    && c.kept() == self.kept() - 1 && c.root() == self.root(),
                SwapNext::Passed => match self.root() {
                    None => r matches RevalidateStep::Done(Ok(())),
                    Some(root) => r matches RevalidateStep::Place(b) && b.vetted() == self.vetted()
                        && b.kept() == self.vetted().len() && b.root() == root,
                },
                SwapNext::Refused(v) => r matches RevalidateStep::Done(Err(e)) && e@ == v,
            },
    {
        proof {
            use_type_invariant(&self);
        }
        match entry {
            Entry::Symlink => RevalidateStep::Done(Err(CoreError::PathEscape(self.vetted.text()))),
            Entry::Real => {
                let SwapCheck { vetted, kept, root } = self;
                match root {
                    None => RevalidateStep::Done(Ok(())),
                    Some(root) => {
                        let kept: usize = vetted.len();
                        RevalidateStep::Place(BeltCheck { vetted, kept, root })
                    },
                }
            },
            Entry::NotFound => {
                if self.kept == 0 {
                    RevalidateStep::Done(Err(CoreError::PathEscape(self.vetted.text())))
                } else {
                    let SwapCheck { vetted, kept, root } = self;
                    RevalidateStep::Entry(SwapCheck { vetted, kept: kept - 1, root })
                }
            },
            Entry::Failed(e) => RevalidateStep::Done(Err(CoreError::Io(e))),
        }
    }
}

impl BeltCheck {
    #[verifier::type_invariant]
    spec fn within(self) -> bool {
        self.kept <= self.vetted@.len()
    }

    pub closed spec fn vetted(&self) -> Seq<Seq<char>> {
        self.vetted@
    }

    pub closed spec fn kept(&self) -> int {
        self.kept as int
    }

    pub closed spec fn root(&self) -> Seq<Seq<char>> {
        self.root@
    }

    /// The path to look at.
    pub fn path(&self) -> (r: String)
        ensures
            r@ == path::render(self.vetted().take(self.kept())),
            0 <= self.kept() <= self.vetted().len(),
    {
        proof {
            use_type_invariant(self);
        }
        self.vetted.prefix(self.kept).text()
    }

    /// The path that is re-checked.
    pub fn target(&self) -> (r: String)
        ensures
            r@ == path::render(self.vetted()),
    {
        self.vetted.text()
    }

    /// What follows from the canonical place of [`BeltCheck::path`], absent where it has none.
    pub fn step(self, place: Option<String>) -> (r: RevalidateStep)
        ensures
            match belt_step(self.root(), self.vetted(), self.kept(), text::opt_view(place)) {
                Some(v) => r matches RevalidateStep::Done(u) && crate::error::unit_view(u) == v,
                None => r matches RevalidateStep::Place(c) && c.vetted() == self.vetted()
                    && c.kept() == self.kept() - 1 && c.root() == self.root(),
            },
    {
        proof {
            use_type_invariant(&self);
        }
        match place {
            Some(t) => {
                match AbsPath::parse(t.as_str()) {
                    Some(actual) => {
                        if actual.starts_with(&self.root) {
                            return RevalidateStep::Done(Ok(()));
                        }
                    },
                    None => {},
                }
                RevalidateStep::Done(Err(CoreError::PathEscape(self.vetted.text())))
            },
            None => {
                if self.kept == 0 {
                    RevalidateStep::Done(Err(CoreError::PathEscape(self.vetted.text())))
                } else {
                    let BeltCheck { vetted, kept, root } = self;
                    RevalidateStep::Place(BeltCheck { vetted, kept: kept - 1, root })
                }
            },
        }
    }
}

/// Starts to re-check, before a write, that no symbolic link was put into a path that was
/// resolved before. It needs no root, so it cannot see an ancestor directory that was
/// replaced by a link to a directory in which the rest of the path exists.
pub fn assert_no_symlink_swap(vetted: &AbsPath) -> (r: SwapCheck)
    ensures
        r.vetted() == vetted@,
        r.kept() == vetted@.len(),
        r.root() is None,
{
    SwapCheck { vetted: vetted.duplicate(), kept: vetted.len(), root: None }
}

impl Workspace {
    /// Starts to re-check, before a write, that a path that was resolved before still denotes
    /// the same place in the root.
    pub fn revalidate_before_write(&self, vetted: &AbsPath) -> (r: SwapCheck)
        ensures
            r.vetted() == vetted@,
            r.kept() == vetted@.len(),
            r.root() == Some(self@),
    {
        SwapCheck {
            vetted: vetted.duplicate(),
            kept: vetted.len(),
            root: Some(self.root.duplicate()),
        }
    }
}

/// A re-check without a root passes exactly where the nearest existing ancestor of the path is
/// no symbolic link; so a link put in the place of the path, or of an absent part of it, is
/// refused.
pub proof fn law_swap_check_passes_iff_nearest_entry_is_real(
    vetted: Seq<Seq<char>>,
    kept: int,
    entries: spec_fn(Seq<char>) -> EntryView,
)
    requires
        0 <= kept <= vetted.len(),
    ensures
        swap_run(vetted, kept, entries) is Ok <==> exists|k: int|
            0 <= k <= kept && #[trigger] entries(path::render(vetted.take(k))) is Real && forall|
                j: int,
            |
                k < j <= kept ==> #[trigger] entries(path::render(vetted.take(j))) is NotFound,
    decreases kept,
{
    let here = entries(path::render(vetted.take(kept)));
    if here is Real {
        assert(entries(path::render(vetted.take(kept))) is Real);
    } else if here is NotFound && kept > 0 {
        law_swap_check_passes_iff_nearest_entry_is_real(vetted, kept - 1, entries);
        if swap_run(vetted, kept, entries) is Ok {
            let k = choose|k: int|
                0 <= k <= kept - 1 && #[trigger] entries(path::render(vetted.take(k))) is Real
                    && forall|j: int|
                    k < j <= kept - 1 ==> #[trigger] entries(
                        path::render(vetted.take(j)),
                    ) is NotFound;
            assert(entries(path::render(vetted.take(k))) is Real);
        } else {
            assert forall|k: int| 0 <= k <= kept && #[trigger] entries(
                path::render(vetted.take(k)),
            ) is Real implies exists|j: int|
                k < j <= kept && !(#[trigger] entries(path::render(vetted.take(j))) is NotFound) by {
                if k == kept {
                } else {
                    let j = choose|j: int|
                        k < j <= kept - 1 && !(#[trigger] entries(
                            path::render(vetted.take(j)),
                        ) is NotFound);
                    assert(!(entries(path::render(vetted.take(j))) is NotFound));
                }
            }
        }
    } else if !(here is NotFound) {
        assert(!(entries(path::render(vetted.take(kept))) is NotFound));
    }
}

/// The second half of a re-check passes only where the nearest ancestor of the path that has
/// a canonical place lies in the root.
pub proof fn law_belt_passes_only_inside_the_root(
    root: Seq<Seq<char>>,
    vetted: Seq<Seq<char>>,
    kept: int,
    places: spec_fn(Seq<char>) -> Option<Seq<char>>,
)
    requires
        0 <= kept <= vetted.len(),
        belt_run(root, vetted, kept, places) is Ok,
    ensures
        exists|k: int|
            0 <= k <= kept && (#[trigger] places(path::render(vetted.take(k))) matches Some(t)
                && path::canonical(t) && root.is_prefix_of(path::names_of(path::components(t))))
                && forall|j: int|
                k < j <= kept ==> #[trigger] places(path::render(vetted.take(j))) is None,
    decreases kept,
{
    match places(path::render(vetted.take(kept))) {
        Some(t) => {
            assert(places(path::render(vetted.take(kept))) is Some);
        },
        None => {
            law_belt_passes_only_inside_the_root(root, vetted, kept - 1, places);
            let k = choose|k: int|
                0 <= k <= kept - 1 && (#[trigger] places(path::render(vetted.take(k))) matches Some(
                    t,
                ) && path::canonical(t) && root.is_prefix_of(path::names_of(path::components(t))))
                    && forall|j: int|
                    k < j <= kept - 1 ==> #[trigger] places(path::render(vetted.take(j))) is None;
            assert(places(path::render(vetted.take(k))) is Some);
        },
    }
}

/// A re-check with the root passes only where the nearest existing ancestor of the path is no
/// symbolic link and the nearest one that has a place has it inside the root.
pub proof fn law_revalidation_needs_both_halves(
    root: Seq<Seq<char>>,
    vetted: Seq<Seq<char>>,
    entries: spec_fn(Seq<char>) -> EntryView,
    places: spec_fn(Seq<char>) -> Option<Seq<char>>,
)
    requires
        revalidate_run(root, vetted, entries, places) is Ok,
    ensures
        swap_run(vetted, vetted.len() as int, entries) is Ok,
        exists|k: int|
            0 <= k <= vetted.len() && #[trigger] entries(path::render(vetted.take(k))) is Real
                && forall|j: int|
                k < j <= vetted.len() ==> #[trigger] entries(
                    path::render(vetted.take(j)),
                ) is NotFound,
        exists|k: int|
            0 <= k <= vetted.len() && (#[trigger] places(path::render(vetted.take(k))) matches Some(
                t,
            ) && path::canonical(t) && root.is_prefix_of(path::names_of(path::components(t))))
                && forall|j: int|
                k < j <= vetted.len() ==> #[trigger] places(path::render(vetted.take(j))) is None,
{
    law_swap_check_passes_iff_nearest_entry_is_real(vetted, vetted.len() as int, entries);
    law_belt_passes_only_inside_the_root(root, vetted, vetted.len() as int, places);
}

/// Whether the entries and the places are those of a file system that answers as `files` does:
/// what is its own place is no link, and at what is absent there is nothing.
pub open spec fn same_files(
    files: spec_fn(Seq<char>) -> ProbeView,
    entries: spec_fn(Seq<char>) -> EntryView,
    places: spec_fn(Seq<char>) -> Option<Seq<char>>,
) -> bool {
    &&& forall|t: Seq<char>| #[trigger]
        places(t) == match files(t) {
            ProbeView::Canonical(b) => Some(b),
            _ => None,
        }
    &&& forall|t: Seq<char>|
        files(t) == ProbeView::Canonical(t) ==> #[trigger] entries(t) is Real
    &&& forall|t: Seq<char>| files(t) is Absent ==> #[trigger] entries(t) is NotFound
}

/// What was let through passes both re-checks as long as the file system has not changed.
pub proof fn law_unchanged_paths_pass_revalidation(
    root: Seq<Seq<char>>,
    p: Seq<char>,
    files: spec_fn(Seq<char>) -> ProbeView,
    entries: spec_fn(Seq<char>) -> EntryView,
    places: spec_fn(Seq<char>) -> Option<Seq<char>>,
)
    requires
        file_system(files),
        same_files(files, entries, places),
        path::plain_names(root),
        at(files, path::as_components(root)) == ProbeView::Canonical(path::render(root)),
        resolve_run(start_resolving(root, p), files) is Ok,
    ensures
        ({
            let q = resolve_run(start_resolving(root, p), files)->Ok_0;
            &&& swap_run(q, q.len() as int, entries) == Ok::<(), ErrorView>(())
            &&& revalidate_run(root, q, entries, places) == Ok::<(), ErrorView>(())
        }),
{
    let s = start_resolving(root, p);
    let q = resolve_run(s, files)->Ok_0;
    lemma_joined_is_absolute(root, p);
    let k = lemma_resolved_rests(s, files);
    law_resolved_paths_stay_inside(root, p, files);
    let place = q.take(k);
    assert(root.len() <= k) by {
        if k < root.len() {
            assert(q.take(root.len() as int) =~= root);
            assert(at(files, path::as_components(q.take(root.len() as int))) is Absent);
        }
    }
    assert(path::plain_names(place));
    path::law_rendered_path_parses_back(place);
    assert(root.is_prefix_of(place)) by {
        assert(root =~= place.take(root.len() as int));
    }
    assert forall|j: int| k < j <= q.len() implies files(
        path::render(#[trigger] q.take(j)),
    ) is Absent by {
        assert(at(files, path::as_components(q.take(j))) is Absent);
    }
    lemma_swap_goes_down(q, q.len() as int, k, entries);
    lemma_belt_goes_down(root, q, q.len() as int, k, places);
    assert(files(path::render(place)) == ProbeView::Canonical(path::render(place)));
}

/// A link put in the place of a path, or of an absent part of it, is refused by name, whatever
/// the link leads to.
pub proof fn law_swapped_links_are_refused(
    root: Seq<Seq<char>>,
    vetted: Seq<Seq<char>>,
    k: int,
    entries: spec_fn(Seq<char>) -> EntryView,
    places: spec_fn(Seq<char>) -> Option<Seq<char>>,
)
    requires
        0 <= k <= vetted.len(),
        entries(path::render(vetted.take(k))) is Symlink,
        forall|j: int|
            k < j <= vetted.len() ==> entries(path::render(#[trigger] vetted.take(j))) is NotFound,
    ensures
        revalidate_run(root, vetted, entries, places) == Err::<(), ErrorView>(
            ErrorView::PathEscape(path::render(vetted)),
        ),
        swap_run(vetted, vetted.len() as int, entries) == Err::<(), ErrorView>(
            ErrorView::PathEscape(path::render(vetted)),
        ),
{
    lemma_swap_goes_down(vetted, vetted.len() as int, k, entries);
}

proof fn lemma_swap_goes_down(
    vetted: Seq<Seq<char>>,
    kept: int,
    k: int,
    entries: spec_fn(Seq<char>) -> EntryView,
)
    requires
        0 <= k <= kept,
        forall|j: int|
            k < j <= kept ==> entries(path::render(#[trigger] vetted.take(j))) is NotFound,
    ensures
        swap_run(vetted, kept, entries) == swap_run(vetted, k, entries),
    decreases kept,
{
    if k < kept {
        assert(entries(path::render(vetted.take(kept))) is NotFound);
        lemma_swap_goes_down(vetted, kept - 1, k, entries);
    }
}

/// A path whose nearest ancestor with a place has it outside the root is refused by name, even
/// where no link stands in the path itself, so that the re-check without a root lets it pass.
pub proof fn law_redirected_ancestors_are_refused(
    root: Seq<Seq<char>>,
    vetted: Seq<Seq<char>>,
    k: int,
    entries: spec_fn(Seq<char>) -> EntryView,
    places: spec_fn(Seq<char>) -> Option<Seq<char>>,
)
    requires
        0 <= k <= vetted.len(),
        swap_run(vetted, vetted.len() as int, entries) is Ok,
        places(path::render(vetted.take(k))) matches Some(t) && !(path::canonical(t)
            && root.is_prefix_of(path::names_of(path::components(t)))),
        forall|j: int|
            k < j <= vetted.len() ==> places(path::render(#[trigger] vetted.take(j))) is None,
    ensures
        revalidate_run(root, vetted, entries, places) == Err::<(), ErrorView>(
            ErrorView::PathEscape(path::render(vetted)),
        ),
{
    lemma_belt_goes_down(root, vetted, vetted.len() as int, k, places);
}

proof fn lemma_belt_goes_down(
    root: Seq<Seq<char>>,
    vetted: Seq<Seq<char>>,
    kept: int,
    k: int,
    places: spec_fn(Seq<char>) -> Option<Seq<char>>,
)
    requires
        0 <= k <= kept,
        forall|j: int| k < j <= kept ==> places(path::render(#[trigger] vetted.take(j))) is None,
    ensures
        belt_run(root, vetted, kept, places) == belt_run(root, vetted, k, places),
    decreases kept,
{
    if k < kept {
        assert(places(path::render(vetted.take(kept))) is None);
        lemma_belt_goes_down(root, vetted, kept - 1, k, places);
    }
}

// ---------------------------------------------------------------------------
// Scratch directories
// ---------------------------------------------------------------------------

/// The directory in the root under which scratch directories are made.
pub const TEMP_DIR: &'static str = ".compact-mcp-tmp";

pub open spec fn hex_digit(c: char) -> bool {
    '0' <= c <= '9' || 'a' <= c <= 'f'
}

/// A UUID in lower-case hexadecimal with hyphens.
pub open spec fn uuid_text(t: Seq<char>) -> bool {
    &&& t.len() == 36
    &&& forall|i: int|
        0 <= i < 36 ==> if i == 8 || i == 13 || i == 18 || i == 23 {
            #[trigger] t[i] == '-'
        } else {
            hex_digit(t[i])
        }
}

/// `uuid::Uuid::new_v4` and its `Display`: a random UUID as 32 lower-case hexadecimal digits
/// in five groups with hyphens between them. Which one depends on chance and is left unsaid.
#[verifier::external_body]
pub(crate) fn new_uuid() -> (r: String)
    ensures
        uuid_text(r@),
{
    uuid::Uuid::new_v4().to_string()
}

/// A scratch directory inside the workspace root.
#[derive(Debug)]
pub struct TempScope {
    dir: String,
}

impl View for TempScope {
    type V = Seq<char>;

    closed spec fn view(&self) -> Seq<char> {
        self.dir@
    }
}

/// A file that is to be written.
#[derive(Debug)]
pub struct FileWrite {
    pub path: String,
    pub contents: String,
}

/// The scratch directory for `prefix` and `id` in the workspace `root`.
pub open spec fn scope_dir(root: Seq<Seq<char>>, prefix: Seq<char>, id: Seq<char>) -> Seq<char> {
    path::join_text(path::join_text(path::render(root), TEMP_DIR@), prefix + "-"@ + id)
}

impl Workspace {
    /// The scratch directory for `prefix` and `id`. The prefix must be a single name.
    pub fn scope_for(&self, prefix: &str, id: &str) -> (r: Result<TempScope, CoreError>)
        ensures
            match r {
                Ok(s) => path::plain_name(prefix@) && s@ == scope_dir(self@, prefix@, id@),
                Err(e) => !path::plain_name(prefix@) && e@ == ErrorView::InvalidArgs(
                    "bad temp scope prefix: "@ + prefix@,
                ),
            },
    {
        if !path::is_single_normal_component(prefix) {
            let mut m = "bad temp scope prefix: ".to_owned();
            m.append(prefix);
            return Err(CoreError::InvalidArgs(m));
        }
        let base = join(self.root.text().as_str(), TEMP_DIR);
        let mut name = prefix.to_owned();
        name.append("-");
        name.append(id);
        Ok(TempScope { dir: join(base.as_str(), name.as_str()) })
    }

    /// A uniquely named scratch directory under the root.
    pub fn temp_scope(&self, prefix: &str) -> (r: Result<TempScope, CoreError>)
        ensures
            match r {
                Ok(s) => path::plain_name(prefix@) && exists|id: Seq<char>|
                    uuid_text(id) && s@ == scope_dir(self@, prefix@, id),
                Err(e) => !path::plain_name(prefix@) && e@ == ErrorView::InvalidArgs(
                    "bad temp scope prefix: "@ + prefix@,
                ),
            },
    {
        let id = new_uuid();
        self.scope_for(prefix, id.as_str())
    }
}

impl TempScope {
    /// The directory.
    pub fn path(&self) -> (r: &str)
        ensures
            r@ == self@,
    {
        self.dir.as_str()
    }

    /// The write of `contents` to the file `name` in the directory. The name must be a single
    /// name.
    pub fn write_file(&self, name: &str, contents: &str) -> (r: Result<FileWrite, CoreError>)
        ensures
            match r {
                Ok(w) => path::plain_name(name@) && w.path@ == path::join_text(self@, name@)
                    && w.contents@ == contents@,
                Err(e) => !path::plain_name(name@) && e@ == ErrorView::InvalidArgs(
                    "bad temp file name: "@ + name@,
                ),
            },
    {
        if !path::is_single_normal_component(name) {
            let mut m = "bad temp file name: ".to_owned();
            m.append(name);
            return Err(CoreError::InvalidArgs(m));
        }
        Ok(
            FileWrite {
                path: join(self.dir.as_str(), name),
                contents: contents.to_owned(),
            },
        )
    }
}

/// A scratch directory lies in the root, directly in the directory for scratch directories.
pub proof fn law_scratch_directories_lie_in_the_root(
    root: Seq<Seq<char>>,
    prefix: Seq<char>,
    id: Seq<char>,
)
    requires
        path::plain_names(root),
        path::plain_name(prefix),
        uuid_text(id),
    ensures
        path::canonical(scope_dir(root, prefix, id)),
        path::names_of(path::components(scope_dir(root, prefix, id))) == root.push(TEMP_DIR@).push(
            prefix + "-"@ + id,
        ),
{
    path::law_rendered_path_parses_back(root);
    let tmp = TEMP_DIR@;
    reveal_strlit(".compact-mcp-tmp");
    assert(path::plain_name(tmp)) by {
        assert(tmp.len() == 16);
        assert(!tmp.contains('/')) by {
            if tmp.contains('/') {
                let k = choose|k: int| 0 <= k < tmp.len() && tmp[k] == '/';
                assert(tmp[k] != '/');
            }
        }
    }
    let base = path::join_text(path::render(root), tmp);
    path::law_single_name_is_an_entry(path::render(root), tmp);
    let more = "-"@ + id;
    reveal_strlit("-");
    assert(!more.contains('/')) by {
        if more.contains('/') {
            let k = choose|k: int| 0 <= k < more.len() && more[k] == '/';
            if k > 0 {
                assert(id[k - 1] == '/');
            }
        }
    }
    assert(more.last() == id[35]);
    let name = prefix + more;
    assert(prefix + "-"@ + id =~= name);
    path::lemma_extended_name(prefix, more);
    path::law_single_name_is_an_entry(base, name);
    let cs = path::components(scope_dir(root, prefix, id));
    assert(path::names_of(cs) =~= root.push(tmp).push(name));
}

/// A file written into a scratch directory is an entry of that directory.
pub proof fn law_scratch_files_lie_in_their_directory(dir: Seq<char>, name: Seq<char>)
    requires
        path::canonical(dir),
        path::plain_name(name),
    ensures
        path::canonical(path::join_text(dir, name)),
        path::names_of(path::components(path::join_text(dir, name))) == path::names_of(
            path::components(dir),
        ).push(name),
{
    path::law_single_name_is_an_entry(dir, name);
    assert(path::names_of(path::components(path::join_text(dir, name))) =~= path::names_of(
        path::components(dir),
    ).push(name));
}

/// A path that leaves the root is refused with the path that it is; any other is handed on.
pub proof fn law_refused_paths_are_named(names: Seq<Seq<char>>, t: Seq<char>)
    ensures
        reported(Ok(names)) == Ok::<Seq<Seq<char>>, ErrorView>(names),
        reported(Err(t)) == Err::<Seq<Seq<char>>, ErrorView>(ErrorView::PathEscape(t)),
{
}

/// A scratch directory goes by what it is for and an id of its own, in a hidden directory of the
/// root.
pub proof fn law_scratch_directories_go_by_their_purpose(
    root: Seq<Seq<char>>,
    prefix: Seq<char>,
    id: Seq<char>,
)
    requires
        path::plain_names(root),
        path::plain_name(prefix),
        uuid_text(id),
    ensures
        scope_dir(root, prefix, id) == path::render(
            root.push(".compact-mcp-tmp"@).push(prefix + "-"@ + id),
        ),
{
    let tmp = ".compact-mcp-tmp"@;
    let name = prefix + "-"@ + id;
    reveal_strlit(".compact-mcp-tmp");
    reveal_strlit("-");
    assert(!path::absolute(tmp));
    assert(!path::absolute(name)) by {
        if name[0] == '/' {
            assert(prefix[0] == '/');
        }
    }
    path::law_paths_are_written_name_by_name(root, tmp);
    path::law_paths_are_written_name_by_name(root.push(tmp), name);
    path::law_paths_are_put_behind_their_directory(path::render(root), tmp);
    let base = path::join_text(path::render(root), tmp);
    if root.len() == 0 {
        assert(root =~= Seq::<Seq<char>>::empty());
        assert(root.push(tmp) =~= seq![tmp]);
        assert(base =~= path::render(root.push(tmp)));
    } else {
        lemma_render_ends_in_a_name(root);
        assert(base =~= path::render(root.push(tmp)));
    }
    assert(base.last() == tmp.last());
    path::law_paths_are_put_behind_their_directory(base, name);
}

proof fn lemma_render_ends_in_a_name(root: Seq<Seq<char>>)
    requires
        path::plain_names(root),
        root.len() > 0,
    ensures
        path::render(root).len() > 0,
        path::render(root).last() != '/',
{
    let before = root.drop_last();
    let name = root.last();
    assert(path::plain_name(name));
    assert(root =~= before.push(name));
    path::law_paths_are_written_name_by_name(before, name);
    if before.len() == 0 {
        assert(root =~= seq![name]);
    }
    assert(path::render(root).last() == name.last());
    assert(name.contains(name.last()));
}

/// What the file system says is seen as it is.
pub proof fn law_answers_are_seen_as_they_are(p: Probe, e: Entry)
    ensures
        p matches Probe::Canonical(t) ==> p@ == ProbeView::Canonical(t@),
        p is BrokenLink <==> p@ is BrokenLink,
        p is Absent <==> p@ is Absent,
        e is Symlink <==> e@ is Symlink,
        e is Real <==> e@ is Real,
        e is NotFound <==> e@ is NotFound,
        e matches Entry::Failed(io) ==> e@ == EntryView::Failed(io.kind, io.message@),
{
}

/// A step goes on exactly where the path is not yet resolved, and from where it got to; it ends
/// with the path that it resolved to, or with the path that was refused.
pub proof fn law_steps_end_with_the_verdict(
    r: ResolveStep,
    v: Result<ResolvingView, Resolved>,
)
    requires
        step_is(r, v),
    ensures
        r is Look <==> v is Ok,
        r matches ResolveStep::Look(next) ==> v == Ok::<ResolvingView, Resolved>(next@),
        r matches ResolveStep::Done(Ok(p)) ==> v == Err::<ResolvingView, Resolved>(Ok(p@)),
        r matches ResolveStep::Done(Err(e)) ==> (v matches Err(Err(t)) && e@
            == ErrorView::PathEscape(t)),
{
}

} // verus!
