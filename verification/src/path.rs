//! Paths in POSIX syntax: the components of a path text, and absolute paths whose
//! components are all plain names. `/` is the only separator and a path is absolute where it
//! starts with one; a path with a drive or with `\` as its separator, as on Windows, is no
//! absolute path here.

use vstd::prelude::*;

use crate::text::{same_text, split_fields};
use crate::text;

verus! {

broadcast use vstd::string::group_string_axioms;

/// One step of a path.
#[derive(Debug)]
pub enum Component {
    /// A leading `.`.
    CurDir,
    /// `..`.
    ParentDir,
    Normal(String),
}

/// What a [`Component`] says.
pub enum ComponentView {
    CurDir,
    ParentDir,
    Normal(Seq<char>),
}

impl View for Component {
    type V = ComponentView;

    open spec fn view(&self) -> ComponentView {
        match self {
            Component::CurDir => ComponentView::CurDir,
            Component::ParentDir => ComponentView::ParentDir,
            Component::Normal(s) => ComponentView::Normal(s@),
        }
    }
}

pub open spec fn component_views(cs: Seq<Component>) -> Seq<ComponentView> {
    Seq::new(cs.len(), |i: int| cs[i]@)
}

/// Whether a path text is absolute.
pub open spec fn absolute(t: Seq<char>) -> bool {
    t.len() > 0 && t[0] == '/'
}

/// The component a field between separators stands for. Empty text::fields and any `.` but
/// a leading one stand for none.
pub open spec fn component_of(field: Seq<char>, leading: bool) -> Option<ComponentView> {
    if field.len() == 0 {
        None
    } else if field == seq!['.'] {
        if leading {
            Some(ComponentView::CurDir)
        } else {
            None
        }
    } else if field == seq!['.', '.'] {
        Some(ComponentView::ParentDir)
    } else {
        Some(ComponentView::Normal(field))
    }
}

/// The components that the text::fields of a path text stand for.
pub open spec fn components_of(fs: Seq<Seq<char>>) -> Seq<ComponentView>
    decreases fs.len(),
{
    if fs.len() == 0 {
        seq![]
    } else {
        let before = components_of(fs.drop_last());
        match component_of(fs.last(), fs.len() == 1) {
            Some(c) => before.push(c),
            None => before,
        }
    }
}

/// The components of a path text. An absolute path's root is no component.
pub open spec fn components(t: Seq<char>) -> Seq<ComponentView> {
    components_of(text::fields(t, '/'))
}

/// A name that can be one component of a path.
pub open spec fn plain_name(s: Seq<char>) -> bool {
    &&& s.len() > 0
    &&& s != seq!['.']
    &&& s != seq!['.', '.']
    &&& !s.contains('/')
}

pub open spec fn plain_names(parts: Seq<Seq<char>>) -> bool {
    forall|i: int| 0 <= i < parts.len() ==> plain_name(#[trigger] parts[i])
}

/// Names as components.
pub open spec fn as_components(parts: Seq<Seq<char>>) -> Seq<ComponentView> {
    Seq::new(parts.len(), |i: int| ComponentView::Normal(parts[i]))
}

/// The text of a component.
pub open spec fn component_text(c: ComponentView) -> Seq<char> {
    match c {
        ComponentView::CurDir => seq!['.'],
        ComponentView::ParentDir => seq!['.', '.'],
        ComponentView::Normal(s) => s,
    }
}

/// The components after one another, each behind a separator.
pub open spec fn slashed(cs: Seq<ComponentView>) -> Seq<char>
    decreases cs.len(),
{
    if cs.len() == 0 {
        seq![]
    } else {
        slashed(cs.drop_last()) + seq!['/'] + component_text(cs.last())
    }
}

/// The text of the absolute path with these components.
pub open spec fn absolute_text(cs: Seq<ComponentView>) -> Seq<char> {
    if cs.len() == 0 {
        seq!['/']
    } else {
        slashed(cs)
    }
}

/// The text of the absolute path with these names.
pub open spec fn render(parts: Seq<Seq<char>>) -> Seq<char> {
    absolute_text(as_components(parts))
}

/// Whether a path text is absolute and free of `..`.
pub open spec fn canonical(t: Seq<char>) -> bool {
    &&& absolute(t)
    &&& forall|i: int|
        0 <= i < components(t).len() ==> #[trigger] components(t)[i] is Normal
}

/// The names in a canonical path text.
pub open spec fn names_of(cs: Seq<ComponentView>) -> Seq<Seq<char>> {
    Seq::new(cs.len(), |i: int| cs[i]->Normal_0)
}

/// `p` taken relative to the directory `base`: an absolute `p` stands for itself.
pub open spec fn join_text(base: Seq<char>, p: Seq<char>) -> Seq<char> {
    if absolute(p) {
        p
    } else if base.len() > 0 && base.last() != '/' {
        base + seq!['/'] + p
    } else {
        base + p
    }
}

pub proof fn lemma_fields_have_no_separator(t: Seq<char>, from: int, c: char)
    requires
        0 <= from <= t.len(),
    ensures
        forall|i: int|
            0 <= i < text::fields_from(t, from, c).len() ==> !(#[trigger] text::fields_from(
                t,
                from,
                c,
            )[i]).contains(c),
    decreases t.len() - from,
{
    text::lemma_run_end(t, from, c);
    let e = text::run_end(t, from, c);
    let first = t.subrange(from, e);
    assert(!first.contains(c)) by {
        if first.contains(c) {
            let k = choose|k: int| 0 <= k < first.len() && first[k] == c;
            assert(t[from + k] == c);
        }
    }
    if e < t.len() {
        lemma_fields_have_no_separator(t, e + 1, c);
        let rest = text::fields_from(t, e + 1, c);
        assert forall|i: int| 0 <= i < text::fields_from(t, from, c).len() implies !(
        #[trigger] text::fields_from(t, from, c)[i]).contains(c) by {
            if i > 0 {
                assert(text::fields_from(t, from, c)[i] == rest[i - 1]);
            }
        }
    }
}

/// Every name among a path's components is a plain name.
pub proof fn lemma_component_names_plain(t: Seq<char>)
    ensures
        forall|i: int|
            0 <= i < components(t).len() ==> (#[trigger] components(t)[i] matches
                ComponentView::Normal(s) ==> plain_name(s)),
{
    lemma_fields_have_no_separator(t, 0, '/');
    lemma_components_of_plain(text::fields(t, '/'));
}

proof fn lemma_components_of_plain(fs: Seq<Seq<char>>)
    requires
        forall|i: int| 0 <= i < fs.len() ==> !(#[trigger] fs[i]).contains('/'),
    ensures
        forall|i: int|
            0 <= i < components_of(fs).len() ==> (#[trigger] components_of(fs)[i] matches
                ComponentView::Normal(s) ==> plain_name(s)),
    decreases fs.len(),
{
    if fs.len() > 0 {
        let before = fs.drop_last();
        assert forall|i: int| 0 <= i < before.len() implies !(#[trigger] before[i]).contains(
            '/',
        ) by {
            assert(before[i] == fs[i]);
        }
        lemma_components_of_plain(before);
        assert(!fs[fs.len() - 1].contains('/'));
    }
}

/// A component that can stand behind the root of a path.
pub open spec fn proper(c: ComponentView) -> bool {
    match c {
        ComponentView::CurDir => false,
        ComponentView::ParentDir => true,
        ComponentView::Normal(s) => plain_name(s),
    }
}

pub open spec fn all_proper(cs: Seq<ComponentView>) -> bool {
    forall|i: int| 0 <= i < cs.len() ==> proper(#[trigger] cs[i])
}

spec fn texts(cs: Seq<ComponentView>) -> Seq<Seq<char>> {
    Seq::new(cs.len(), |i: int| component_text(cs[i]))
}

/// The text of an absolute path has exactly the components it was made of.
pub proof fn lemma_absolute_text_components(cs: Seq<ComponentView>)
    requires
        all_proper(cs),
    ensures
        absolute(absolute_text(cs)),
        components(absolute_text(cs)) == cs,
{
    let none = Seq::<char>::empty();
    if cs.len() == 0 {
        let t = seq!['/'];
        assert(t =~= none + seq!['/'] + none);
        text::lemma_fields_join(none, 0, '/', none);
        assert(text::fields(none, '/') =~= seq![none]) by {
            assert(none.subrange(0, 0) =~= none);
        }
        let fs = text::fields(t, '/');
        assert(fs =~= seq![none, none]);
        assert(fs.drop_last() =~= seq![none]);
        assert(fs.drop_last().drop_last() =~= Seq::<Seq<char>>::empty());
        reveal_with_fuel(components_of, 4);
        assert(components(t) =~= cs);
    } else {
        lemma_slashed_fields(cs);
        lemma_components_of_texts(cs);
        lemma_slashed_starts(cs);
    }
}

/// The text of an absolute path of plain names has exactly those names as its
/// components.
pub proof fn law_rendered_path_parses_back(parts: Seq<Seq<char>>)
    requires
        plain_names(parts),
    ensures
        canonical(render(parts)),
        components(render(parts)) == as_components(parts),
        names_of(components(render(parts))) == parts,
{
    lemma_names_are_proper(parts);
    lemma_absolute_text_components(as_components(parts));
    assert(names_of(as_components(parts)) =~= parts);
}

pub proof fn lemma_names_are_proper(parts: Seq<Seq<char>>)
    requires
        plain_names(parts),
    ensures
        all_proper(as_components(parts)),
{
    assert forall|i: int| 0 <= i < parts.len() implies proper(
        #[trigger] as_components(parts)[i],
    ) by {
        assert(plain_name(parts[i]));
    }
}

proof fn lemma_slashed_starts(cs: Seq<ComponentView>)
    requires
        cs.len() > 0,
    ensures
        slashed(cs).len() > 0,
        slashed(cs)[0] == '/',
    decreases cs.len(),
{
    let before = slashed(cs.drop_last());
    let text = component_text(cs.last());
    if cs.len() > 1 {
        lemma_slashed_starts(cs.drop_last());
        assert((before + seq!['/'] + text)[0] == before[0]);
    } else {
        assert(before =~= Seq::<char>::empty());
        assert((before + seq!['/'] + text)[0] == '/');
    }
}

/// The text of a proper component is no empty field and holds no separator.
proof fn lemma_proper_text(c: ComponentView)
    requires
        proper(c),
    ensures
        component_text(c).len() > 0,
        !component_text(c).contains('/'),
        component_of(component_text(c), false) == Some(c),
{
    match c {
        ComponentView::ParentDir => {
            let t = seq!['.', '.'];
            assert(t != seq!['.']) by {
                assert(t.len() == 2);
            }
            assert(!t.contains('/')) by {
                if t.contains('/') {
                    let k = choose|k: int| 0 <= k < t.len() && t[k] == '/';
                    assert(t[k] == '.');
                }
            }
        },
        _ => {},
    }
}

proof fn lemma_slashed_fields(cs: Seq<ComponentView>)
    requires
        all_proper(cs),
    ensures
        text::fields(slashed(cs), '/') == seq![Seq::<char>::empty()] + texts(cs),
    decreases cs.len(),
{
    let none = Seq::<char>::empty();
    if cs.len() == 0 {
        assert(none.subrange(0, 0) =~= none);
        assert(text::fields(none, '/') =~= seq![none] + texts(cs));
    } else {
        let before = cs.drop_last();
        assert(all_proper(before)) by {
            assert forall|i: int| 0 <= i < before.len() implies proper(#[trigger] before[i]) by {
                assert(before[i] == cs[i]);
            }
        }
        lemma_slashed_fields(before);
        assert(proper(cs[cs.len() - 1]));
        lemma_proper_text(cs.last());
        let last = component_text(cs.last());
        text::lemma_fields_join(slashed(before), 0, '/', last);
        text::lemma_single_field(last, '/');
        assert(seq![none] + texts(before) + seq![last] =~= seq![none] + texts(cs));
    }
}

proof fn lemma_components_of_texts(cs: Seq<ComponentView>)
    requires
        all_proper(cs),
    ensures
        components_of(seq![Seq::<char>::empty()] + texts(cs)) == cs,
    decreases cs.len(),
{
    let fs = seq![Seq::<char>::empty()] + texts(cs);
    if cs.len() == 0 {
        assert(fs.drop_last() =~= Seq::<Seq<char>>::empty());
        reveal_with_fuel(components_of, 2);
        assert(components_of(fs) =~= cs);
    } else {
        let before = cs.drop_last();
        assert(all_proper(before)) by {
            assert forall|i: int| 0 <= i < before.len() implies proper(#[trigger] before[i]) by {
                assert(before[i] == cs[i]);
            }
        }
        assert(fs.drop_last() =~= seq![Seq::<char>::empty()] + texts(before));
        lemma_components_of_texts(before);
        assert(proper(cs[cs.len() - 1]));
        lemma_proper_text(cs.last());
        assert(before.push(cs.last()) =~= cs);
    }
}

/// The components of two lists of fields, put behind one another, are those of the one and
/// then those of the other, unless the second starts with a `.`.
proof fn lemma_components_of_concat(fs: Seq<Seq<char>>, gs: Seq<Seq<char>>)
    requires
        fs.len() > 0,
        gs.len() > 0 ==> gs[0] != seq!['.'],
    ensures
        components_of(fs + gs) == components_of(fs) + components_of(gs),
    decreases gs.len(),
{
    if gs.len() == 0 {
        assert(fs + gs =~= fs);
        assert(components_of(fs) + components_of(gs) =~= components_of(fs));
    } else {
        let before = gs.drop_last();
        lemma_components_of_concat(fs, before);
        assert((fs + gs).drop_last() =~= fs + before);
        assert((fs + gs).last() == gs.last());
        assert(components_of(fs + gs) =~= components_of(fs) + components_of(gs));
    }
}

/// A relative path that does not start with a `.`, taken relative to an absolute directory,
/// has the components of the directory and then its own.
pub proof fn lemma_join_components(base: Seq<char>, p: Seq<char>)
    requires
        absolute(base),
        !absolute(p),
        text::fields(p, '/')[0] != seq!['.'],
    ensures
        absolute(join_text(base, p)),
        components(join_text(base, p)) == components(base) + components(p),
{
    let none = Seq::<char>::empty();
    let gs = text::fields(p, '/');
    if base.last() == '/' {
        let dir = base.drop_last();
        assert(base =~= dir + seq!['/'] + none);
        assert(base + p =~= dir + seq!['/'] + p);
        text::lemma_fields_join(dir, 0, '/', none);
        text::lemma_fields_join(dir, 0, '/', p);
        text::lemma_single_field(none, '/');
        let fs = text::fields(dir, '/');
        text::lemma_run_end(dir, 0, '/');
        assert(text::fields(base, '/') =~= fs.push(none));
        assert(fs.push(none).drop_last() =~= fs);
        lemma_components_of_concat(fs, gs);
    } else {
        text::lemma_fields_join(base, 0, '/', p);
        text::lemma_run_end(base, 0, '/');
        lemma_components_of_concat(text::fields(base, '/'), gs);
    }
}

/// A plain name is the one component of the path it makes.
pub proof fn lemma_plain_name_is_single(s: Seq<char>)
    requires
        plain_name(s),
    ensures
        !absolute(s),
        components(s) == seq![ComponentView::Normal(s)],
{
    text::lemma_single_field(s, '/');
    assert(seq![s].drop_last() =~= Seq::<Seq<char>>::empty());
    reveal_with_fuel(components_of, 2);
    assert(components(s) =~= seq![ComponentView::Normal(s)]);
    if absolute(s) {
        assert(s[0] == '/');
    }
}

/// A single name, taken relative to an absolute directory, is the entry of that directory with
/// this name.
pub proof fn law_single_name_is_an_entry(base: Seq<char>, name: Seq<char>)
    requires
        absolute(base),
        plain_name(name),
    ensures
        absolute(join_text(base, name)),
        components(join_text(base, name)) == components(base).push(ComponentView::Normal(name)),
        canonical(base) ==> canonical(join_text(base, name)),
{
    lemma_plain_name_is_single(name);
    lemma_starts_with_name(name);
    lemma_join_components(base, name);
    assert(components(base) + components(name) =~= components(base).push(
        ComponentView::Normal(name),
    ));
}

/// A plain name with a text behind it that holds no separator, and that is no `.` or `..` by its
/// last character, is a plain name.
pub proof fn lemma_extended_name(name: Seq<char>, more: Seq<char>)
    requires
        plain_name(name),
        !more.contains('/'),
        more.len() > 0,
        more.last() != '.',
    ensures
        plain_name(name + more),
{
    let all = name + more;
    assert(all.last() == more.last());
    assert(!all.contains('/')) by {
        if all.contains('/') {
            let k = choose|k: int| 0 <= k < all.len() && all[k] == '/';
            if k < name.len() {
                assert(name[k] == '/');
            } else {
                assert(more[k - name.len()] == '/');
            }
        }
    }
    assert(all != seq!['.'] && all != seq!['.', '.']) by {
        if all == seq!['.'] || all == seq!['.', '.'] {
            assert(all.last() == '.');
        }
    }
}

/// A path whose first component is a name does not start with a `.`.
pub proof fn lemma_starts_with_name(p: Seq<char>)
    requires
        components(p).len() > 0,
        components(p)[0] is Normal,
    ensures
        text::fields(p, '/')[0] != seq!['.'],
{
    let fs = text::fields(p, '/');
    if fs.len() > 0 && fs[0] == seq!['.'] {
        lemma_leading_dot(fs);
    } else if fs.len() == 0 {
        text::lemma_run_end(p, 0, '/');
    }
}

proof fn lemma_leading_dot(fs: Seq<Seq<char>>)
    requires
        fs.len() > 0,
        fs[0] == seq!['.'],
    ensures
        components_of(fs).len() > 0,
        components_of(fs)[0] is CurDir,
    decreases fs.len(),
{
    if fs.len() == 1 {
        assert(fs.drop_last() =~= Seq::<Seq<char>>::empty());
        reveal_with_fuel(components_of, 2);
    } else {
        assert(fs.drop_last()[0] == fs[0]);
        lemma_leading_dot(fs.drop_last());
    }
}

/// The components of an absolute path are all proper.
pub proof fn lemma_joined_components_proper(t: Seq<char>)
    requires
        absolute(t),
    ensures
        all_proper(components(t)),
{
    let fs = text::fields(t, '/');
    text::lemma_run_end(t, 0, '/');
    assert(t.subrange(0, 0) =~= Seq::<char>::empty());
    assert(fs[0] =~= Seq::<char>::empty());
    lemma_component_names_plain(t);
    lemma_no_leading_dot(fs);
    assert forall|i: int| 0 <= i < components(t).len() implies proper(
        #[trigger] components(t)[i],
    ) by {}
}

proof fn lemma_no_leading_dot(fs: Seq<Seq<char>>)
    requires
        fs.len() > 0,
        fs[0] != seq!['.'],
    ensures
        forall|i: int| 0 <= i < components_of(fs).len() ==> !(#[trigger] components_of(fs)[i] is CurDir),
    decreases fs.len(),
{
    if fs.len() > 1 {
        assert(fs.drop_last()[0] == fs[0]);
        lemma_no_leading_dot(fs.drop_last());
    } else {
        assert(fs.drop_last() =~= Seq::<Seq<char>>::empty());
        reveal_with_fuel(components_of, 2);
    }
}

/// Whether a path text is absolute.
pub fn is_absolute(p: &str) -> (r: bool)
    ensures
        r == absolute(p@),
{
    match p.chars().next() {
        Some(c) => c == '/',
        None => false,
    }
}

/// The components of a path text.
pub fn parse_components(p: &str) -> (r: Vec<Component>)
    ensures
        component_views(r@) == components(p@),
{
    let fs = split_fields(p, '/');
    let mut out: Vec<Component> = Vec::new();
    let mut i: usize = 0;
    proof {
        reveal_strlit(".");
        reveal_strlit("..");
        assert("."@ =~= seq!['.']);
        assert(".."@ =~= seq!['.', '.']);
    }
    while i < fs.len()
        invariant
            i <= fs.len(),
            text::views(fs@) == text::fields(p@, '/'),
            component_views(out@) == components_of(text::views(fs@).take(i as int)),
            "."@ == seq!['.'],
            ".."@ == seq!['.', '.'],
        decreases fs.len() - i,
    {
        let ghost before = out@;
        proof {
            let t = text::views(fs@).take(i + 1);
            assert(t.drop_last() =~= text::views(fs@).take(i as int));
            assert(t.last() == fs@[i as int]@);
        }
        if fs[i].as_str().is_empty() {
        } else if same_text(fs[i].as_str(), ".") {
            if i == 0 {
                out.push(Component::CurDir);
            }
        } else if same_text(fs[i].as_str(), "..") {
            out.push(Component::ParentDir);
        } else {
            out.push(Component::Normal(fs[i].clone()));
        }
        proof {
            if out@.len() > before.len() {
                assert(component_views(out@) =~= component_views(before).push(out@.last()@));
            }
        }
        i = i + 1;
    }
    assert(text::views(fs@).take(fs@.len() as int) =~= text::views(fs@));
    out
}

/// `p` taken relative to the directory `base`.
pub fn join(base: &str, p: &str) -> (r: String)
    ensures
        r@ == join_text(base@, p@),
{
    if is_absolute(p) {
        return p.to_owned();
    }
    let cs = crate::text::chars_of(base);
    let mut out = base.to_owned();
    if cs.len() > 0 && cs[cs.len() - 1] != '/' {
        out.push('/');
    }
    out.append(p);
    proof {
        if base@.len() > 0 && base@.last() != '/' {
            assert(out@ =~= base@ + seq!['/'] + p@);
        }
    }
    out
}

/// The text of the first `n` of the components of an absolute path.
pub fn prefix_text(cs: &Vec<Component>, n: usize) -> (r: String)
    requires
        n <= cs.len(),
    ensures
        r@ == absolute_text(component_views(cs@).take(n as int)),
{
    let mut out = String::new();
    if n == 0 {
        out.push('/');
        assert(out@ =~= seq!['/']);
        return out;
    }
    proof {
        reveal_strlit(".");
        reveal_strlit("..");
        assert("."@ =~= seq!['.']);
        assert(".."@ =~= seq!['.', '.']);
    }
    let mut i: usize = 0;
    while i < n
        invariant
            i <= n <= cs.len(),
            out@ == slashed(component_views(cs@).take(i as int)),
            "."@ == seq!['.'],
            ".."@ == seq!['.', '.'],
        decreases n - i,
    {
        proof {
            let t = component_views(cs@).take(i + 1);
            assert(t.drop_last() =~= component_views(cs@).take(i as int));
            assert(t.last() == cs@[i as int]@);
        }
        let ghost before = out@;
        out.push('/');
        match &cs[i] {
            Component::CurDir => out.append("."),
            Component::ParentDir => out.append(".."),
            Component::Normal(s) => out.append(s.as_str()),
        }
        assert(out@ =~= before + seq!['/'] + component_text(cs@[i as int]@));
        i = i + 1;
    }
    out
}

/// An absolute path whose components are all plain names.
#[derive(Debug)]
pub struct AbsPath {
    parts: Vec<String>,
}

impl View for AbsPath {
    type V = Seq<Seq<char>>;

    closed spec fn view(&self) -> Seq<Seq<char>> {
        text::views(self.parts@)
    }
}

impl AbsPath {
    #[verifier::type_invariant]
    spec fn made_of_plain_names(self) -> bool {
        plain_names(text::views(self.parts@))
    }

    /// The absolute path that a text names; `None` where the text is relative or holds
    /// a `..`.
    pub fn parse(t: &str) -> (r: Option<AbsPath>)
        ensures
            r is Some <==> canonical(t@),
            r matches Some(p) ==> p@ == names_of(components(t@)) && plain_names(p@),
    {
        if !is_absolute(t) {
            return None;
        }
        let cs = parse_components(t);
        let mut parts: Vec<String> = Vec::new();
        let mut i: usize = 0;
        proof {
            lemma_component_names_plain(t@);
        }
        while i < cs.len()
            invariant
                i <= cs.len(),
                component_views(cs@) == components(t@),
                text::views(parts@) == names_of(components(t@)).take(i as int),
                forall|j: int| 0 <= j < i ==> #[trigger] components(t@)[j] is Normal,
            decreases cs.len() - i,
        {
            assert(components(t@)[i as int] == cs@[i as int]@);
            match &cs[i] {
                Component::Normal(s) => {
                    let ghost before = parts@;
                    parts.push(s.clone());
                    proof {
                        text::lemma_views_push(before, parts@.last());
                        assert(names_of(components(t@)).take(i + 1) =~= names_of(
                            components(t@),
                        ).take(i as int).push(s@));
                    }
                },
                _ => {
                    return None;
                },
            }
            i = i + 1;
        }
        proof {
            let names = names_of(components(t@));
            assert(names.take(names.len() as int) =~= names);
            assert forall|j: int| 0 <= j < names.len() implies plain_name(#[trigger] names[j]) by {
                assert(components(t@)[j] is Normal);
            }
        }
        Some(AbsPath { parts })
    }

    /// The text of the path.
    pub fn text(&self) -> (r: String)
        ensures
            r@ == render(self@),
            plain_names(self@),
    {
        proof {
            use_type_invariant(self);
        }
        let mut out = String::new();
        if self.parts.len() == 0 {
            out.push('/');
            assert(out@ =~= seq!['/']);
            return out;
        }
        let ghost cs = as_components(self@);
        let mut i: usize = 0;
        while i < self.parts.len()
            invariant
                i <= self.parts.len(),
                cs == as_components(self@),
                self@ == text::views(self.parts@),
                out@ == slashed(cs.take(i as int)),
            decreases self.parts.len() - i,
        {
            proof {
                let t = cs.take(i + 1);
                assert(t.drop_last() =~= cs.take(i as int));
                assert(component_text(t.last()) == self.parts@[i as int]@);
            }
            let ghost before = out@;
            out.push('/');
            out.append(self.parts[i].as_str());
            assert(out@ =~= before + seq!['/'] + self.parts@[i as int]@);
            i = i + 1;
        }
        assert(cs.take(cs.len() as int) =~= cs);
        out
    }

    /// The number of names in the path.
    pub fn len(&self) -> (r: usize)
        ensures
            r == self@.len(),
    {
        self.parts.len()
    }

    /// The first `n` names of the path.
    pub fn prefix(&self, n: usize) -> (r: AbsPath)
        requires
            n <= self@.len(),
        ensures
            r@ == self@.take(n as int),
            plain_names(r@),
    {
        proof {
            use_type_invariant(self);
        }
        let mut parts: Vec<String> = Vec::new();
        let mut i: usize = 0;
        while i < n
            invariant
                i <= n <= self.parts.len(),
                self@ == text::views(self.parts@),
                text::views(parts@) == self@.take(i as int),
            decreases n - i,
        {
            let ghost before = parts@;
            parts.push(self.parts[i].clone());
            proof {
                text::lemma_views_push(before, parts@.last());
                assert(self@.take(i + 1) =~= self@.take(i as int).push(self@[i as int]));
            }
            i = i + 1;
        }
        proof {
            assert forall|j: int| 0 <= j < n implies plain_name(
                #[trigger] text::views(parts@)[j],
            ) by {
                assert(text::views(parts@)[j] == self@[j]);
            }
        }
        AbsPath { parts }
    }

    /// A path with the same names.
    pub fn duplicate(&self) -> (r: AbsPath)
        ensures
            r@ == self@,
            plain_names(r@),
    {
        assert(self@.take(self@.len() as int) =~= self@);
        self.prefix(self.parts.len())
    }

    /// The directory that holds the path; `None` for the root of the file system.
    pub fn parent(&self) -> (r: Option<AbsPath>)
        ensures
            r is None <==> self@.len() == 0,
            r matches Some(p) ==> p@ == self@.drop_last() && plain_names(p@),
    {
        if self.parts.len() == 0 {
            return None;
        }
        assert(self@.take(self@.len() - 1) =~= self@.drop_last());
        Some(self.prefix(self.parts.len() - 1))
    }

    /// The path followed by the components `from..` of `cs`, with `.` and `..` taken
    /// lexically; `None` where a `..` has nothing left to take away.
    pub fn extended(&self, cs: &Vec<Component>, from: usize) -> (r: Option<AbsPath>)
        requires
            from <= cs.len(),
            forall|i: int|
                from <= i < cs.len() ==> (#[trigger] cs@[i]@ matches ComponentView::Normal(s)
                    ==> plain_name(s)),
        ensures
            match r {
                Some(p) => lexical(self@, component_views(cs@).skip(from as int)) == Some(p@)
                    && plain_names(p@),
                None => lexical(self@, component_views(cs@).skip(from as int)) is None,
            },
    {
        let mut out = self.duplicate();
        let mut i: usize = from;
        let ghost tail = component_views(cs@).skip(from as int);
        while i < cs.len()
            invariant
                from <= i <= cs.len(),
                tail == component_views(cs@).skip(from as int),
                plain_names(out@),
                forall|k: int|
                    from <= k < cs.len() ==> (#[trigger] cs@[k]@ matches ComponentView::Normal(s)
                        ==> plain_name(s)),
                lexical(self@, tail.take(i - from)) == Some(out@),
            decreases cs.len() - i,
        {
            proof {
                let t = tail.take(i + 1 - from);
                assert(t.drop_last() =~= tail.take(i - from));
                assert(t.last() == cs@[i as int]@);
            }
            match &cs[i] {
                Component::CurDir => {},
                Component::ParentDir => match out.parent() {
                    Some(p) => {
                        out = p;
                    },
                    None => {
                        proof {
                            lemma_lexical_none(self@, tail, i + 1 - from);
                        }
                        return None;
                    },
                },
                Component::Normal(s) => {
                    out = out.child(s);
                },
            }
            i = i + 1;
        }
        assert(tail.take(tail.len() as int) =~= tail);
        Some(out)
    }

    /// The path of the entry `name` in the directory.
    pub fn child(&self, name: &String) -> (r: AbsPath)
        requires
            plain_name(name@),
        ensures
            r@ == self@.push(name@),
            plain_names(r@),
    {
        let mut parts: Vec<String> = Vec::new();
        let mut i: usize = 0;
        proof {
            use_type_invariant(self);
        }
        while i < self.parts.len()
            invariant
                i <= self.parts.len(),
                self@ == text::views(self.parts@),
                text::views(parts@) == self@.take(i as int),
            decreases self.parts.len() - i,
        {
            let ghost before = parts@;
            parts.push(self.parts[i].clone());
            proof {
                text::lemma_views_push(before, parts@.last());
                assert(self@.take(i + 1) =~= self@.take(i as int).push(self@[i as int]));
            }
            i = i + 1;
        }
        assert(self@.take(self@.len() as int) =~= self@);
        let ghost before = parts@;
        parts.push(name.clone());
        proof {
            text::lemma_views_push(before, parts@.last());
            assert forall|j: int| 0 <= j < parts@.len() implies plain_name(
                #[trigger] text::views(parts@)[j],
            ) by {
                if j < self@.len() {
                    assert(text::views(parts@)[j] == self@[j]);
                }
            }
        }
        AbsPath { parts }
    }

    /// Whether the path is `base` or lies below it.
    pub fn starts_with(&self, base: &AbsPath) -> (r: bool)
        ensures
            r == base@.is_prefix_of(self@),
    {
        if base.parts.len() > self.parts.len() {
            return false;
        }
        let mut i: usize = 0;
        while i < base.parts.len()
            invariant
                i <= base.parts.len() <= self.parts.len(),
                self@ == text::views(self.parts@),
                base@ == text::views(base.parts@),
                forall|j: int| 0 <= j < i ==> base@[j] == self@[j],
            decreases base.parts.len() - i,
        {
            if !same_text(self.parts[i].as_str(), base.parts[i].as_str()) {
                assert(self@[i as int] != base@[i as int]);
                return false;
            }
            i = i + 1;
        }
        true
    }
}

/// `base` followed by the components of `tail`, with `.` and `..` taken lexically.
pub open spec fn lexical(base: Seq<Seq<char>>, tail: Seq<ComponentView>) -> Option<Seq<Seq<char>>>
    decreases tail.len(),
{
    if tail.len() == 0 {
        Some(base)
    } else {
        match lexical(base, tail.drop_last()) {
            None => None,
            Some(parts) => match tail.last() {
                ComponentView::CurDir => Some(parts),
                ComponentView::ParentDir => if parts.len() == 0 {
                    None
                } else {
                    Some(parts.drop_last())
                },
                ComponentView::Normal(s) => Some(parts.push(s)),
            },
        }
    }
}

proof fn lemma_lexical_none(base: Seq<Seq<char>>, tail: Seq<ComponentView>, n: int)
    requires
        0 <= n <= tail.len(),
        lexical(base, tail.take(n)) is None,
    ensures
        lexical(base, tail) is None,
    decreases tail.len(),
{
    if n == tail.len() {
        assert(tail.take(n) =~= tail);
    } else {
        assert(tail.drop_last().take(n) =~= tail.take(n));
        lemma_lexical_none(base, tail.drop_last(), n);
    }
}

/// Whether `name` is exactly one plain component: no separators, not even at its end, no `.` or
/// `..`, and not empty. Such a name can be put behind a trusted directory without leaving it. A
/// name with a drive, such as `C:`, is one here: in POSIX syntax it is a name like any other.
pub fn is_single_normal_component(name: &str) -> (r: bool)
    ensures
        r == plain_name(name@),
{
    proof {
        reveal_strlit(".");
        reveal_strlit("..");
        assert("."@ =~= seq!['.']);
        assert(".."@ =~= seq!['.', '.']);
    }
    let cs = crate::text::chars_of(name);
    if cs.len() == 0 || same_text(name, ".") || same_text(name, "..") {
        return false;
    }
    let mut i: usize = 0;
    while i < cs.len()
        invariant
            i <= cs.len(),
            cs@ == name@,
            forall|j: int| 0 <= j < i ==> name@[j] != '/',
        decreases cs.len() - i,
    {
        if cs[i] == '/' {
            assert(name@[i as int] == '/');
            return false;
        }
        i = i + 1;
    }
    true
}

// ---------------------------------------------------------------------------
// Laws
// ---------------------------------------------------------------------------

/// What stands behind a separator is one component more: `..` is the parent directory and any
/// other name a name. Nothing at all, and a `.`, are none.
pub proof fn law_every_field_is_a_component(t: Seq<char>, f: Seq<char>)
    requires
        !f.contains('/'),
    ensures
        ({
            let longer = components(t + seq!['/'] + f);
            &&& f.len() == 0 ==> longer == components(t)
            &&& f == seq!['.'] ==> longer == components(t)
            &&& f == seq!['.', '.'] ==> longer == components(t).push(ComponentView::ParentDir)
            &&& f.len() > 0 && f != seq!['.'] && f != seq!['.', '.'] ==> longer == components(
                t,
            ).push(ComponentView::Normal(f))
        }),
{
    text::lemma_fields_join(t, 0, '/', f);
    lemma_one_field(f);
    text::law_fields_are_joined_back(t, '/');
    let fs = text::fields(t, '/');
    let all = text::fields(t + seq!['/'] + f, '/');
    assert(all =~= fs.push(f));
    assert(all.drop_last() =~= fs);
}

/// A path without separators is one component: a `.` is the directory itself, `..` its parent,
/// and any other name a name. The empty path has none.
pub proof fn law_a_single_field_is_a_component(f: Seq<char>)
    requires
        !f.contains('/'),
    ensures
        f.len() == 0 ==> components(f) == Seq::<ComponentView>::empty(),
        f == seq!['.'] ==> components(f) == seq![ComponentView::CurDir],
        f == seq!['.', '.'] ==> components(f) == seq![ComponentView::ParentDir],
        f.len() > 0 && f != seq!['.'] && f != seq!['.', '.'] ==> components(f) == seq![
            ComponentView::Normal(f),
        ],
{
    lemma_one_field(f);
    assert(seq![f].drop_last() =~= Seq::<Seq<char>>::empty());
    reveal_with_fuel(components_of, 2);
}

proof fn lemma_one_field(f: Seq<char>)
    requires
        !f.contains('/'),
    ensures
        text::fields(f, '/') == seq![f],
{
    text::lemma_run_end(f, 0, '/');
    let e = text::run_end(f, 0, '/');
    if e < f.len() {
        assert(f[e] == '/');
    }
    assert(f.subrange(0, f.len() as int) =~= f);
}

/// A name can be a component of a path exactly where it is not empty, is neither `.` nor `..`,
/// and holds no separator.
pub proof fn law_plain_names(s: Seq<char>)
    ensures
        plain_name(s) <==> s.len() > 0 && !s.contains('/') && !(s.len() == 1 && s[0] == '.') && !(
        s.len() == 2 && s[0] == '.' && s[1] == '.'),
{
    if s.len() == 1 && s[0] == '.' {
        assert(s =~= seq!['.']);
    }
    if s.len() == 2 && s[0] == '.' && s[1] == '.' {
        assert(s =~= seq!['.', '.']);
    }
}

/// A path is taken relative to a directory by putting it behind, with one separator between them;
/// an absolute path stands for itself.
pub proof fn law_paths_are_put_behind_their_directory(base: Seq<char>, p: Seq<char>)
    ensures
        p.len() > 0 && p[0] == '/' ==> join_text(base, p) == p,
        !(p.len() > 0 && p[0] == '/') && base.len() > 0 && base.last() != '/' ==> join_text(base, p)
            == base + seq!['/'] + p,
        !(p.len() > 0 && p[0] == '/') && (base.len() == 0 || base.last() == '/') ==> join_text(
            base,
            p,
        ) == base + p,
{
}

/// The names of an absolute path stand in their order, each behind a separator; without any there
/// is the root.
pub proof fn law_paths_are_written_name_by_name(parts: Seq<Seq<char>>, name: Seq<char>)
    ensures
        render(Seq::<Seq<char>>::empty()) == seq!['/'],
        render(seq![name]) == seq!['/'] + name,
        parts.len() > 0 ==> render(parts.push(name)) == render(parts) + seq!['/'] + name,
{
    let one = as_components(seq![name]);
    assert(one.drop_last() =~= Seq::<ComponentView>::empty());
    reveal_with_fuel(slashed, 2);
    assert(slashed(one) =~= seq!['/'] + name);
    assert(as_components(parts.push(name)).drop_last() =~= as_components(parts));
    assert(as_components(parts.push(name)).last() == ComponentView::Normal(name));
}

/// Taken lexically, a name goes one directory down, `..` one up, which fails at the top, and `.`
/// nowhere; what failed once stays failed.
pub proof fn law_components_are_taken_one_by_one(
    base: Seq<Seq<char>>,
    tail: Seq<ComponentView>,
    name: Seq<char>,
)
    ensures
        lexical(base, Seq::<ComponentView>::empty()) == Some(base),
        lexical(base, tail) is None ==> lexical(base, tail.push(ComponentView::CurDir)) is None
            && lexical(base, tail.push(ComponentView::ParentDir)) is None && lexical(
            base,
            tail.push(ComponentView::Normal(name)),
        ) is None,
        lexical(base, tail) matches Some(at) ==> {
            &&& lexical(base, tail.push(ComponentView::CurDir)) == Some(at)
            &&& lexical(base, tail.push(ComponentView::Normal(name))) == Some(at.push(name))
            &&& at.len() > 0 ==> lexical(base, tail.push(ComponentView::ParentDir)) == Some(
                at.drop_last(),
            )
            &&& at.len() == 0 ==> lexical(base, tail.push(ComponentView::ParentDir)) is None
        },
{
    assert(tail.push(ComponentView::CurDir).drop_last() =~= tail);
    assert(tail.push(ComponentView::ParentDir).drop_last() =~= tail);
    assert(tail.push(ComponentView::Normal(name)).drop_last() =~= tail);
}

/// A path is canonical exactly where it starts at the root and neither `.` nor `..` is left in it.
pub proof fn law_canonical_paths_do_not_climb(t: Seq<char>)
    ensures
        canonical(t) <==> t.len() > 0 && t[0] == '/' && !components(t).contains(
            ComponentView::ParentDir,
        ) && !components(t).contains(ComponentView::CurDir),
{
    let cs = components(t);
    if canonical(t) {
        if cs.contains(ComponentView::ParentDir) {
            let k = choose|k: int| 0 <= k < cs.len() && cs[k] == ComponentView::ParentDir;
            assert(cs[k] is Normal);
        }
        if cs.contains(ComponentView::CurDir) {
            let k = choose|k: int| 0 <= k < cs.len() && cs[k] == ComponentView::CurDir;
            assert(cs[k] is Normal);
        }
    }
    if absolute(t) && !cs.contains(ComponentView::ParentDir) && !cs.contains(
        ComponentView::CurDir,
    ) {
        assert forall|i: int| 0 <= i < cs.len() implies #[trigger] cs[i] is Normal by {
            assert(cs.contains(cs[i]));
        }
    }
}

/// Components are seen in their order, each as it is.
pub proof fn law_components_are_seen_as_they_are(cs: Seq<Component>)
    ensures
        component_views(cs).len() == cs.len(),
        forall|i: int|
            0 <= i < cs.len() ==> {
                let v = #[trigger] component_views(cs)[i];
                &&& v is CurDir <==> cs[i] is CurDir
                &&& v is ParentDir <==> cs[i] is ParentDir
                &&& cs[i] matches Component::Normal(s) ==> v == ComponentView::Normal(s@)
            },
{
}

} // verus!
