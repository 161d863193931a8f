//! What the tools make of what the toolchain and the artifacts say.

use vstd::prelude::*;

use crate::analyze;
use crate::analyze::depth;
use crate::analyze::depth::is_over_max_depth;
use crate::analyze::depth_refusal_message;
use crate::artifacts::{Artifacts, CircuitArtifact, CircuitArtifactView};
use crate::error::{CoreError, ErrorView};
use crate::text;
use crate::text::{
    chars_of, contains_text, find_text, lines, quoted, same_text, slice_string, split_fields,
    trim_start_at, trimmed,
};
use crate::toolchain::versions;

verus! {

broadcast use vstd::string::group_string_axioms;

// ---------------------------------------------------------------------------
// Analysis
// ---------------------------------------------------------------------------

/// Why a source is not analysed. A source that is nested too deeply has no syntax tree, and an
/// answer without one must not look like that of an empty source.
pub fn analysis_refusal(source: &str) -> (r: Option<String>)
    ensures
        match r {
            Some(m) => depth::too_deep(source@) && m@ == analyze::depth_refusal(),
            None => !depth::too_deep(source@),
        },
{
    if is_over_max_depth(source) {
        Some(depth_refusal_message())
    } else {
        None
    }
}

// ---------------------------------------------------------------------------
// The toolchain
// ---------------------------------------------------------------------------

/// A compiler version that the toolchain lists.
#[derive(Debug)]
pub struct ListedVersion {
    pub version: String,
    pub platforms: Vec<String>,
    /// Whether the line starts with an arrow.
    pub marked: bool,
}

/// What a [`ListedVersion`] says.
pub struct ListedView {
    pub version: Seq<char>,
    pub platforms: Seq<Seq<char>>,
    pub marked: bool,
}

impl View for ListedVersion {
    type V = ListedView;

    open spec fn view(&self) -> ListedView {
        ListedView {
            version: self.version@,
            platforms: text::views(self.platforms@),
            marked: self.marked,
        }
    }
}

pub open spec fn listed_views(v: Seq<ListedVersion>) -> Seq<ListedView> {
    Seq::new(v.len(), |i: int| v[i]@)
}

/// The arrow before a version.
pub const ARROW: char = '\u{2192}';

/// `t` without the arrows at its start.
pub open spec fn without_arrows(t: Seq<char>) -> Seq<char>
    decreases t.len(),
{
    if t.len() > 0 && t[0] == ARROW {
        without_arrows(t.drop_first())
    } else {
        t
    }
}

/// The first position at or after `from` at which `p` stands in `t`.
pub open spec fn found_at(t: Seq<char>, p: Seq<char>, from: int) -> Option<int>
    decreases t.len() - from + 1,
{
    if from > t.len() {
        None
    } else if text::occurs_at(t, p, from) {
        Some(from)
    } else {
        found_at(t, p, from + 1)
    }
}

/// Each part without the white space around it.
pub open spec fn trimmed_each(parts: Seq<Seq<char>>) -> Seq<Seq<char>> {
    Seq::new(parts.len(), |i: int| text::trim(parts[i]))
}

/// A line of the list, taken apart: arrows, the version, ` - `, and the platforms with commas
/// between them. Without ` - ` the line is all version.
pub open spec fn taken_apart(line: Seq<char>) -> ListedView {
    let start = text::trim_start(line);
    let marked = start.len() > 0 && start[0] == ARROW;
    let body = text::trim(without_arrows(start));
    match found_at(body, " - "@, 0) {
        Some(i) => ListedView {
            version: text::trim(body.take(i)),
            platforms: trimmed_each(text::fields(body.skip(i + 3), ',')),
            marked,
        },
        None => ListedView { version: body, platforms: seq![], marked },
    }
}

/// The lines among the first `n` whose version is one.
pub open spec fn listed(ls: Seq<Seq<char>>, n: int) -> Seq<ListedView>
    decreases n,
{
    if n <= 0 {
        seq![]
    } else {
        let rest = listed(ls, n - 1);
        let l = taken_apart(ls[n - 1]);
        if versions::parsed_version(l.version) is Some {
            rest.push(l)
        } else {
            rest
        }
    }
}

proof fn lemma_found(t: Seq<char>, p: Seq<char>, from: int, at: int)
    requires
        0 <= from <= at <= t.len(),
        text::occurs_at(t, p, at),
        forall|j: int| from <= j < at ==> !text::occurs_at(t, p, j),
    ensures
        found_at(t, p, from) == Some(at),
    decreases at - from,
{
    if from < at {
        lemma_found(t, p, from + 1, at);
    }
}

proof fn lemma_not_found(t: Seq<char>, p: Seq<char>, from: int)
    requires
        forall|j: int| from <= j ==> !text::occurs_at(t, p, j),
    ensures
        found_at(t, p, from) is None,
    decreases t.len() - from + 1,
{
    if from <= t.len() {
        lemma_not_found(t, p, from + 1);
    }
}

/// A line of the list, taken apart.
pub fn take_apart(line: &str) -> (r: ListedVersion)
    ensures
        r@ == taken_apart(line@),
{
    let cs = chars_of(line);
    let lo: usize = trim_start_at(&cs, 0, cs.len());
    let ghost start = text::trim_start(line@);
    proof {
        assert(cs@.subrange(0, cs@.len() as int) =~= cs@);
        assert(cs@.subrange(lo as int, cs@.len() as int) == start);
    }
    let marked = lo < cs.len() && cs[lo] == ARROW;
    assert(marked == (start.len() > 0 && start[0] == ARROW));
    let mut at: usize = lo;
    while at < cs.len() && cs[at] == ARROW
        invariant
            lo <= at <= cs.len(),
            without_arrows(cs@.subrange(at as int, cs@.len() as int)) == without_arrows(start),
        decreases cs.len() - at,
    {
        proof {
            assert(cs@.subrange(at as int, cs@.len() as int).drop_first() =~= cs@.subrange(
                at + 1,
                cs@.len() as int,
            ));
        }
        at = at + 1;
    }
    let body = trimmed(slice_string(&cs, at, cs.len()).as_str());
    let bs = chars_of(body.as_str());
    let sep = chars_of(" - ");
    proof {
        reveal_strlit(" - ");
    }
    match find_text(&bs, 0, &sep) {
        Some(i) => {
            proof {
                lemma_found(body@, " - "@, 0, i as int);
                assert(bs@.subrange(0, i as int) =~= body@.take(i as int));
                assert(bs@.subrange(i + 3, bs@.len() as int) =~= body@.skip(i + 3));
            }
            let version = trimmed(slice_string(&bs, 0, i).as_str());
            let rest = slice_string(&bs, i + 3, bs.len());
            let parts = split_fields(rest.as_str(), ',');
            let ghost fs = text::fields(body@.skip(i + 3), ',');
            let mut platforms: Vec<String> = Vec::new();
            let mut k: usize = 0;
            assert(text::views(platforms@) =~= trimmed_each(fs).take(0));
            while k < parts.len()
                invariant
                    k <= parts.len(),
                    text::views(parts@) == fs,
                    text::views(platforms@) == trimmed_each(fs).take(k as int),
                decreases parts.len() - k,
            {
                let p = trimmed(parts[k].as_str());
                proof {
                    text::lemma_views_push(platforms@, p);
                    assert(fs[k as int] == parts@[k as int]@);
                    assert(trimmed_each(fs).take(k + 1) =~= trimmed_each(fs).take(k as int).push(
                        p@,
                    ));
                }
                platforms.push(p);
                k = k + 1;
            }
            assert(trimmed_each(fs).take(fs.len() as int) =~= trimmed_each(fs));
            ListedVersion { version, platforms, marked }
        },
        None => {
            proof {
                lemma_not_found(body@, " - "@, 0);
            }
            let platforms: Vec<String> = Vec::new();
            assert(text::views(platforms@) =~= Seq::<Seq<char>>::empty());
            ListedVersion { version: body, platforms, marked }
        },
    }
}

/// The versions in the output of `compact list`. A line whose first part is no version is no
/// version line, whatever it looks like.
pub fn parse_list(stdout: &str) -> (r: Vec<ListedVersion>)
    ensures
        listed_views(r@) == listed(
            text::lines_of(stdout@),
            text::lines_of(stdout@).len() as int,
        ),
{
    let ls = lines(stdout);
    let ghost all = text::lines_of(stdout@);
    let mut out: Vec<ListedVersion> = Vec::new();
    let mut i: usize = 0;
    assert(listed_views(out@) =~= Seq::<ListedView>::empty());
    while i < ls.len()
        invariant
            i <= ls.len(),
            all == text::views(ls@),
            listed_views(out@) == listed(all, i as int),
        decreases ls.len() - i,
    {
        let l = take_apart(ls[i].as_str());
        assert(l@ == taken_apart(all[i as int]));
        if versions::parse_version(l.version.as_str()).is_some() {
            let ghost before = out@;
            out.push(l);
            assert(listed_views(out@) =~= listed_views(before).push(l@));
        }
        i = i + 1;
    }
    out
}

/// Whether the output of `compact check` says that the newest compiler is installed.
pub fn up_to_date(output: &str) -> (r: bool)
    ensures
        r == text::occurs(output@, "Up to date"@),
{
    contains_text(output, "Up to date")
}

/// No version is made up: every listed version is one, and stands in a line of the output.
pub proof fn law_listed_versions_are_versions(ls: Seq<Seq<char>>, n: int)
    requires
        n <= ls.len(),
    ensures
        forall|i: int|
            0 <= i < listed(ls, n).len() ==> versions::parsed_version(
                (#[trigger] listed(ls, n)[i]).version,
            ) is Some && exists|k: int|
                0 <= k < n && #[trigger] taken_apart(ls[k]) == listed(ls, n)[i],
        forall|k: int|
            0 <= k < n && versions::parsed_version((#[trigger] taken_apart(ls[k])).version) is Some
                ==> listed(ls, n).contains(taken_apart(ls[k])),
    decreases n,
{
    if n > 0 {
        law_listed_versions_are_versions(ls, n - 1);
        let rest = listed(ls, n - 1);
        let now = listed(ls, n);
        assert forall|i: int| 0 <= i < now.len() implies versions::parsed_version(
            (#[trigger] now[i]).version,
        ) is Some && exists|k: int| 0 <= k < n && #[trigger] taken_apart(ls[k]) == now[i] by {
            if i < rest.len() {
                assert(rest[i] == now[i]);
                let k = choose|k: int|
                    0 <= k < n - 1 && #[trigger] taken_apart(ls[k]) == rest[i];
                assert(taken_apart(ls[k]) == now[i]);
            } else {
                assert(taken_apart(ls[n - 1]) == now[i]);
            }
        }
        assert forall|k: int|
            0 <= k < n && versions::parsed_version(
                (#[trigger] taken_apart(ls[k])).version,
            ) is Some implies now.contains(taken_apart(ls[k])) by {
            if k < n - 1 {
                assert(rest.contains(taken_apart(ls[k])));
                let i = choose|i: int| 0 <= i < rest.len() && rest[i] == taken_apart(ls[k]);
                assert(now[i] == taken_apart(ls[k]));
            } else {
                assert(now[now.len() - 1] == taken_apart(ls[k]));
            }
        }
    }
}

// ---------------------------------------------------------------------------
// Circuits
// ---------------------------------------------------------------------------

/// A circuit without an intermediate representation, and why.
#[derive(Debug)]
pub struct AbsentCircuit {
    pub circuit: String,
    pub proof: bool,
    pub reason: String,
}

/// What an [`AbsentCircuit`] says.
pub struct AbsentView {
    pub circuit: Seq<char>,
    pub proof: bool,
    pub reason: Seq<char>,
}

impl View for AbsentCircuit {
    type V = AbsentView;

    open spec fn view(&self) -> AbsentView {
        AbsentView { circuit: self.circuit@, proof: self.proof, reason: self.reason@ }
    }
}

/// The circuits to report: the file of each that has an intermediate representation, relative
/// to the target directory, and those that have none.
#[derive(Debug)]
pub struct ZkirPlan {
    pub wanted: Vec<(String, String)>,
    pub absent: Vec<AbsentCircuit>,
}

/// What a [`ZkirPlan`] says.
pub struct PlanView {
    pub wanted: Seq<(Seq<char>, Seq<char>)>,
    pub absent: Seq<AbsentView>,
}

pub open spec fn wanted_views(v: Seq<(String, String)>) -> Seq<(Seq<char>, Seq<char>)> {
    Seq::new(v.len(), |i: int| (v[i].0@, v[i].1@))
}

pub open spec fn absent_views(v: Seq<AbsentCircuit>) -> Seq<AbsentView> {
    Seq::new(v.len(), |i: int| v[i]@)
}

impl View for ZkirPlan {
    type V = PlanView;

    open spec fn view(&self) -> PlanView {
        PlanView { wanted: wanted_views(self.wanted@), absent: absent_views(self.absent@) }
    }
}

pub open spec fn circuit_views(cs: Seq<CircuitArtifact>) -> Seq<CircuitArtifactView> {
    Seq::new(cs.len(), |i: int| cs[i]@)
}

/// A circuit that makes no proof has no intermediate representation; one that does and has
/// none comes from a build that is not complete.
pub open spec fn absent_circuit(c: CircuitArtifactView) -> AbsentView {
    AbsentView {
        circuit: c.name,
        proof: c.proof,
        reason: if c.proof {
            "proof:true but no .zkir found \u{2014} build may be incomplete"@
        } else {
            "proof:false \u{2014} no zkir emitted"@
        },
    }
}

/// Whether a circuit is reported: all are where none is named.
pub open spec fn asked_for(circuit: Option<Seq<char>>, name: Seq<char>) -> bool {
    circuit is None || circuit == Some(name)
}

/// The report on the first `n` circuits.
pub open spec fn zkir_report(
    cs: Seq<CircuitArtifactView>,
    circuit: Option<Seq<char>>,
    n: int,
) -> PlanView
    decreases n,
{
    if n <= 0 {
        PlanView { wanted: seq![], absent: seq![] }
    } else {
        let rest = zkir_report(cs, circuit, n - 1);
        let c = cs[n - 1];
        if !asked_for(circuit, c.name) {
            rest
        } else {
            match c.zkir {
                Some(file) => PlanView { wanted: rest.wanted.push((c.name, file)), ..rest },
                None => PlanView { absent: rest.absent.push(absent_circuit(c)), ..rest },
            }
        }
    }
}

/// Whether a circuit has this name.
pub open spec fn has_circuit(cs: Seq<CircuitArtifactView>, name: Seq<char>) -> bool {
    exists|i: int| 0 <= i < cs.len() && (#[trigger] cs[i]).name == name
}

/// The names of circuits, each in quotes.
pub open spec fn quoted_names(cs: Seq<CircuitArtifactView>) -> Seq<Seq<char>> {
    Seq::new(cs.len(), |i: int| text::debug_text(cs[i].name))
}

/// The refusal of a name that no circuit has; it tells the names there are.
pub open spec fn unknown_circuit(
    cs: Seq<CircuitArtifactView>,
    name: Seq<char>,
    target_dir: Seq<char>,
) -> ErrorView {
    ErrorView::InvalidArgs(
        "no circuit named "@ + text::debug_text(name) + " in "@ + target_dir + "; available: ["@
            + text::joined(quoted_names(cs), ", "@) + "]"@,
    )
}

fn no_such_circuit(cs: &Vec<CircuitArtifact>, name: &str, target_dir: &str) -> (r: CoreError)
    ensures
        r@ == unknown_circuit(circuit_views(cs@), name@, target_dir@),
{
    let ghost views = circuit_views(cs@);
    let mut names: Vec<String> = Vec::new();
    let mut i: usize = 0;
    assert(text::views(names@) =~= quoted_names(views).take(0));
    while i < cs.len()
        invariant
            i <= cs.len(),
            views == circuit_views(cs@),
            text::views(names@) == quoted_names(views).take(i as int),
        decreases cs.len() - i,
    {
        let q = quoted(cs[i].name.as_str());
        proof {
            text::lemma_views_push(names@, q);
            assert(quoted_names(views).take(i + 1) =~= quoted_names(views).take(i as int).push(q@));
        }
        names.push(q);
        i = i + 1;
    }
    assert(quoted_names(views).take(cs@.len() as int) =~= quoted_names(views));
    let mut m = "no circuit named ".to_owned();
    m.append(quoted(name).as_str());
    m.append(" in ");
    m.append(target_dir);
    m.append("; available: [");
    m.append(text::join(&names, ", ").as_str());
    m.append("]");
    CoreError::InvalidArgs(m)
}

/// The circuits to report of a build in `target_dir`: every one, or the one that is named.
pub fn zkir_plan(scanned: &Artifacts, circuit: Option<&str>, target_dir: &str) -> (r: Result<
    ZkirPlan,
    CoreError,
>)
    ensures
        ({
            let cs = circuit_views(scanned.circuits@);
            let named = match circuit {
                Some(n) => Some(n@),
                None => None,
            };
            match r {
                Ok(plan) => (named matches Some(n) ==> has_circuit(cs, n)) && plan@ == zkir_report(
                    cs,
                    named,
                    cs.len() as int,
                ),
                Err(e) => named matches Some(n) && !has_circuit(cs, n) && e@ == unknown_circuit(
                    cs,
                    n,
                    target_dir@,
                ),
            }
        }),
{
    let ghost cs = circuit_views(scanned.circuits@);
    let ghost named = match circuit {
        Some(n) => Some(n@),
        None => None,
    };
    let mut wanted: Vec<(String, String)> = Vec::new();
    let mut absent: Vec<AbsentCircuit> = Vec::new();
    let mut known = circuit.is_none();
    let mut i: usize = 0;
    proof {
        assert(wanted_views(wanted@) =~= Seq::<(Seq<char>, Seq<char>)>::empty());
        assert(absent_views(absent@) =~= Seq::<AbsentView>::empty());
    }
    while i < scanned.circuits.len()
        invariant
            i <= scanned.circuits.len(),
            cs == circuit_views(scanned.circuits@),
            named == (match circuit {
                Some(n) => Some(n@),
                None => None,
            }),
            (PlanView { wanted: wanted_views(wanted@), absent: absent_views(absent@) })
                == zkir_report(cs, named, i as int),
            known <==> named is None || exists|j: int|
                0 <= j < i && Some((#[trigger] cs[j]).name) == named,
        decreases scanned.circuits.len() - i,
    {
        let c = &scanned.circuits[i];
        assert(cs[i as int] == c@);
        let asked = match circuit {
            None => true,
            Some(n) => same_text(n, c.name.as_str()),
        };
        assert(asked == asked_for(named, cs[i as int].name));
        if asked {
            if !known {
                known = true;
            }
            match &c.zkir {
                Some(file) => {
                    let ghost before = wanted@;
                    wanted.push((c.name.as_str().to_owned(), file.as_str().to_owned()));
                    assert(wanted_views(wanted@) =~= wanted_views(before).push((c.name@, file@)));
                },
                None => {
                    let reason = if c.proof {
                        "proof:true but no .zkir found \u{2014} build may be incomplete"
                    } else {
                        "proof:false \u{2014} no zkir emitted"
                    };
                    let a = AbsentCircuit {
                        circuit: c.name.as_str().to_owned(),
                        proof: c.proof,
                        reason: reason.to_owned(),
                    };
                    let ghost before = absent@;
                    absent.push(a);
                    assert(absent_views(absent@) =~= absent_views(before).push(a@));
                },
            }
        }
        i = i + 1;
    }
    match circuit {
        Some(n) => {
            if !known {
                return Err(no_such_circuit(&scanned.circuits, n, target_dir));
            }
        },
        None => {},
    }
    Ok(ZkirPlan { wanted, absent })
}

/// Every circuit that is asked for is reported once: with its file where it has one, and among
/// the absent ones where it has none.
pub proof fn law_every_circuit_is_accounted_for(
    cs: Seq<CircuitArtifactView>,
    circuit: Option<Seq<char>>,
    n: int,
)
    requires
        0 <= n <= cs.len(),
    ensures
        circuit is None ==> zkir_report(cs, circuit, n).wanted.len() + zkir_report(
            cs,
            circuit,
            n,
        ).absent.len() == n,
        forall|i: int|
            0 <= i < n && asked_for(circuit, (#[trigger] cs[i]).name) ==> match cs[i].zkir {
                Some(file) => zkir_report(cs, circuit, n).wanted.contains((cs[i].name, file)),
                None => zkir_report(cs, circuit, n).absent.contains(absent_circuit(cs[i])),
            },
    decreases n,
{
    if n > 0 {
        law_every_circuit_is_accounted_for(cs, circuit, n - 1);
        let rest = zkir_report(cs, circuit, n - 1);
        let now = zkir_report(cs, circuit, n);
        assert forall|i: int|
            0 <= i < n && asked_for(circuit, (#[trigger] cs[i]).name) implies match cs[i].zkir {
            Some(file) => now.wanted.contains((cs[i].name, file)),
            None => now.absent.contains(absent_circuit(cs[i])),
        } by {
            match cs[i].zkir {
                Some(file) => {
                    if i < n - 1 {
                        let k = rest.wanted.index_of((cs[i].name, file));
                        assert(now.wanted[k] == rest.wanted[k]);
                    } else {
                        assert(now.wanted.last() == (cs[i].name, file));
                    }
                },
                None => {
                    if i < n - 1 {
                        let k = rest.absent.index_of(absent_circuit(cs[i]));
                        assert(now.absent[k] == rest.absent[k]);
                    } else {
                        assert(now.absent.last() == absent_circuit(cs[i]));
                    }
                },
            }
        }
    }
}

/// A circuit without an intermediate representation is told by its name and by why it has none:
/// that it makes no proof, or that its build is not complete.
pub proof fn law_absent_circuits_are_told_why(c: CircuitArtifactView)
    ensures
        absent_circuit(c).circuit == c.name,
        absent_circuit(c).proof == c.proof,
        c.proof ==> absent_circuit(c).reason
            == "proof:true but no .zkir found \u{2014} build may be incomplete"@,
        !c.proof ==> absent_circuit(c).reason == "proof:false \u{2014} no zkir emitted"@,
{
}

/// Where a circuit is named, only circuits of that name are reported, and where none is, all are.
/// The report keeps their order, and each is told by its own name and file.
pub proof fn law_circuits_are_reported_in_order(
    cs: Seq<CircuitArtifactView>,
    c: CircuitArtifactView,
    circuit: Option<Seq<char>>,
)
    ensures
        ({
            let before = zkir_report(cs, circuit, cs.len() as int);
            let now = zkir_report(cs.push(c), circuit, cs.len() as int + 1);
            &&& circuit matches Some(n) ==> n != c.name ==> now == before
            &&& circuit is None || circuit == Some(c.name) ==> match c.zkir {
                Some(file) => now.wanted == before.wanted.push((c.name, file)) && now.absent
                    == before.absent,
                None => now.wanted == before.wanted && now.absent == before.absent.push(
                    absent_circuit(c),
                ),
            }
        }),
        zkir_report(Seq::<CircuitArtifactView>::empty(), circuit, 0).wanted.len() == 0,
        zkir_report(Seq::<CircuitArtifactView>::empty(), circuit, 0).absent.len() == 0,
{
    lemma_report_prefix(cs, c, circuit, cs.len() as int);
}

proof fn lemma_report_prefix(
    cs: Seq<CircuitArtifactView>,
    c: CircuitArtifactView,
    circuit: Option<Seq<char>>,
    n: int,
)
    requires
        n <= cs.len(),
    ensures
        zkir_report(cs.push(c), circuit, n) == zkir_report(cs, circuit, n),
    decreases n,
{
    if n > 0 {
        lemma_report_prefix(cs, c, circuit, n - 1);
        assert(cs.push(c)[n - 1] == cs[n - 1]);
    }
}

/// A name that no circuit has is refused with the name, the directory and every name there is, each
/// in quotes.
pub proof fn law_unknown_circuits_are_named(
    cs: Seq<CircuitArtifactView>,
    c: CircuitArtifactView,
    name: Seq<char>,
    target_dir: Seq<char>,
)
    ensures
        unknown_circuit(cs, name, target_dir) == ErrorView::InvalidArgs(
            "no circuit named "@ + text::debug_text(name) + " in "@ + target_dir
                + "; available: ["@ + text::joined(quoted_names(cs), ", "@) + "]"@,
        ),
        quoted_names(cs.push(c)) == quoted_names(cs).push(text::debug_text(c.name)),
        quoted_names(cs).len() == cs.len(),
        has_circuit(cs.push(c), name) <==> has_circuit(cs, name) || c.name == name,
        !has_circuit(Seq::<CircuitArtifactView>::empty(), name),
{
    assert(quoted_names(cs.push(c)) =~= quoted_names(cs).push(text::debug_text(c.name)));
    let all = cs.push(c);
    if has_circuit(cs, name) {
        let i = choose|i: int| 0 <= i < cs.len() && (#[trigger] cs[i]).name == name;
        assert(all[i].name == name);
    }
    if c.name == name {
        assert(all[cs.len() as int].name == name);
    }
    if has_circuit(all, name) {
        let i = choose|i: int| 0 <= i < all.len() && (#[trigger] all[i]).name == name;
        if i < cs.len() {
            assert(cs[i].name == name);
        }
    }
}

/// The lines of the list are taken one by one, in their order: a line whose version is one is
/// listed as it is taken apart, and any other is passed over.
pub proof fn law_lines_are_listed_in_order(ls: Seq<Seq<char>>, line: Seq<char>)
    ensures
        listed(Seq::<Seq<char>>::empty(), 0).len() == 0,
        listed(ls.push(line), ls.len() as int + 1) == if versions::parsed_version(
            taken_apart(line).version,
        ) is Some {
            listed(ls, ls.len() as int).push(taken_apart(line))
        } else {
            listed(ls, ls.len() as int)
        },
{
    lemma_listed_prefix(ls, line, ls.len() as int);
}

proof fn lemma_listed_prefix(ls: Seq<Seq<char>>, line: Seq<char>, n: int)
    requires
        n <= ls.len(),
    ensures
        listed(ls.push(line), n) == listed(ls, n),
    decreases n,
{
    if n > 0 {
        lemma_listed_prefix(ls, line, n - 1);
        assert(ls.push(line)[n - 1] == ls[n - 1]);
    }
}

/// Whether a text is not empty and has no white space at its ends.
pub open spec fn bare(t: Seq<char>) -> bool {
    t.len() > 0 && !text::white_space(t[0]) && !text::white_space(t.last())
}

/// What stands before the version in a line: white space, and the arrow where the version is
/// marked.
pub open spec fn lead(before: Seq<char>, marked: bool, after: Seq<char>) -> Seq<char> {
    if marked {
        before + seq!['\u{2192}'] + after
    } else {
        before + after
    }
}

/// A line is read as it is written: its version, whether an arrow marks it, and its platforms, each
/// without the white space around it, in their order.
pub proof fn law_listed_lines_are_read(
    before: Seq<char>,
    marked: bool,
    after: Seq<char>,
    version: Seq<char>,
    platforms: Seq<Seq<char>>,
)
    requires
        text::all_white(before),
        text::all_white(after),
        version.len() > 0,
        forall|i: int| 0 <= i < version.len() ==> !text::white_space(#[trigger] version[i]),
        version[0] != '\u{2192}',
        platforms.len() > 0,
        forall|i: int|
            0 <= i < platforms.len() ==> bare(#[trigger] platforms[i])
                && !platforms[i].contains(','),
    ensures
        taken_apart(
            lead(before, marked, after) + version + " - "@ + text::joined(platforms, ", "@),
        ) == (ListedView { version, platforms, marked }),
{
    reveal_strlit(" - ");
    let tail = text::joined(platforms, ", "@);
    let body = version + " - "@ + tail;
    lemma_platforms(platforms);
    assert(body.last() == tail.last());
    assert(body[0] == version[0]);
    let line = lead(before, marked, after) + version + " - "@ + tail;
    assert(line =~= lead(before, marked, after) + body);
    lemma_lead(before, marked, after, body);
    assert(found_at(body, " - "@, 0) == Some(version.len() as int)) by {
        assert(text::occurs_at(body, " - "@, version.len() as int)) by {
            assert(body.subrange(version.len() as int, version.len() as int + 3) =~= " - "@);
        }
        lemma_found_behind(body, version, 0);
    }
    assert(body.take(version.len() as int) =~= version);
    assert(body.skip(version.len() as int + 3) =~= tail);
    assert(version[version.len() - 1] == version.last());
    let none = Seq::<char>::empty();
    text::law_trimming_gives_what_is_between(none, version, none);
    assert(none + version + none =~= version);
    let fs = text::fields(tail, ',');
    assert(trimmed_each(fs) =~= platforms);
}

/// A line without platforms is all version.
pub proof fn law_lines_without_platforms_are_all_version(
    before: Seq<char>,
    marked: bool,
    after: Seq<char>,
    version: Seq<char>,
)
    requires
        text::all_white(before),
        text::all_white(after),
        version.len() > 0,
        forall|i: int| 0 <= i < version.len() ==> !text::white_space(#[trigger] version[i]),
        version[0] != '\u{2192}',
    ensures
        taken_apart(lead(before, marked, after) + version) == (ListedView {
            version,
            platforms: seq![],
            marked,
        }),
{
    reveal_strlit(" - ");
    assert(version[version.len() - 1] == version.last());
    lemma_lead(before, marked, after, version);
    lemma_no_separator(version, 0);
}

proof fn lemma_lead(before: Seq<char>, marked: bool, after: Seq<char>, body: Seq<char>)
    requires
        text::all_white(before),
        text::all_white(after),
        bare(body),
        body[0] != '\u{2192}',
    ensures
        ({
            let start = text::trim_start(lead(before, marked, after) + body);
            &&& marked <==> start.len() > 0 && start[0] == ARROW
            &&& text::trim(without_arrows(start)) == body
        }),
{
    let none = Seq::<char>::empty();
    let line = lead(before, marked, after) + body;
    if marked {
        let rest = seq!['\u{2192}'] + after + body;
        assert(line =~= before + rest);
        assert(rest.last() == body.last());
        text::law_trimming_gives_what_is_between(before, rest, none);
        assert(rest.drop_first() =~= after + body);
        assert((after + body)[0] != ARROW) by {
            if after.len() > 0 {
                assert(text::white_space(after[0]));
            }
        }
        text::law_trimming_gives_what_is_between(after, body, none);
        assert(after + body + none =~= after + body);
        reveal_with_fuel(without_arrows, 2);
    } else {
        let white = before + after;
        assert(line =~= white + body);
        assert forall|i: int| 0 <= i < white.len() implies text::white_space(
            #[trigger] white[i],
        ) by {
            if i < before.len() {
                assert(white[i] == before[i]);
            } else {
                assert(white[i] == after[i - before.len()]);
            }
        }
        text::law_trimming_gives_what_is_between(white, body, none);
        text::law_trimming_gives_what_is_between(none, body, none);
        assert(none + body + none =~= body);
    }
}

proof fn lemma_found_behind(body: Seq<char>, version: Seq<char>, from: int)
    requires
        version.is_prefix_of(body),
        0 <= from <= version.len(),
        text::occurs_at(body, " - "@, version.len() as int),
        forall|i: int| 0 <= i < version.len() ==> !text::white_space(#[trigger] version[i]),
    ensures
        found_at(body, " - "@, from) == Some(version.len() as int),
    decreases version.len() - from,
{
    reveal_strlit(" - ");
    if from < version.len() {
        assert(body[from] == version[from]);
        assert(!text::occurs_at(body, " - "@, from)) by {
            if text::occurs_at(body, " - "@, from) {
                assert(body.subrange(from, from + 3)[0] == ' ');
            }
        }
        lemma_found_behind(body, version, from + 1);
    }
}

proof fn lemma_no_separator(version: Seq<char>, from: int)
    requires
        0 <= from <= version.len() + 1,
        forall|i: int| 0 <= i < version.len() ==> !text::white_space(#[trigger] version[i]),
    ensures
        found_at(version, " - "@, from) is None,
    decreases version.len() + 1 - from,
{
    reveal_strlit(" - ");
    if from <= version.len() {
        assert(!text::occurs_at(version, " - "@, from)) by {
            if text::occurs_at(version, " - "@, from) {
                assert(version.subrange(from, from + 3)[0] == ' ');
                assert(version[from] == ' ');
            }
        }
        lemma_no_separator(version, from + 1);
    }
}

proof fn lemma_platforms(ps: Seq<Seq<char>>)
    requires
        ps.len() > 0,
        forall|i: int| 0 <= i < ps.len() ==> bare(#[trigger] ps[i]) && !ps[i].contains(','),
    ensures
        ({
            let t = text::joined(ps, ", "@);
            &&& bare(t)
            &&& text::fields(t, ',').len() == ps.len()
            &&& forall|i: int|
                0 <= i < ps.len() ==> text::trim(#[trigger] text::fields(t, ',')[i]) == ps[i]
        }),
    decreases ps.len(),
{
    reveal_strlit(", ");
    let none = Seq::<char>::empty();
    let t = text::joined(ps, ", "@);
    let last = ps.last();
    assert(bare(ps[ps.len() - 1]) && !ps[ps.len() - 1].contains(','));
    if ps.len() == 1 {
        assert(t == last);
        lemma_single_field(last);
        text::law_trimming_gives_what_is_between(none, last, none);
        assert(none + last + none =~= last);
    } else {
        let front = ps.drop_last();
        assert forall|i: int| 0 <= i < front.len() implies bare(#[trigger] front[i])
            && !front[i].contains(',') by {
            assert(front[i] == ps[i]);
        }
        lemma_platforms(front);
        let before = text::joined(front, ", "@);
        let spaced = seq![' '] + last;
        assert(", "@ =~= seq![',', ' ']);
        assert(t =~= before + seq![','] + spaced);
        text::lemma_fields_join(before, 0, ',', spaced);
        assert(!spaced.contains(',')) by {
            if spaced.contains(',') {
                let k = choose|k: int| 0 <= k < spaced.len() && spaced[k] == ',';
                assert(last[k - 1] == ',');
                assert(last.contains(','));
            }
        }
        lemma_single_field(spaced);
        text::law_trimming_gives_what_is_between(seq![' '], last, none);
        assert(seq![' '] + last + none =~= spaced);
        assert(text::fields(t, ',') =~= text::fields(before, ',').push(spaced));
        assert forall|i: int| 0 <= i < ps.len() implies text::trim(
            #[trigger] text::fields(t, ',')[i],
        ) == ps[i] by {
            if i < front.len() {
                assert(text::fields(t, ',')[i] == text::fields(before, ',')[i]);
                assert(front[i] == ps[i]);
            }
        }
        assert(t[0] == before[0]);
        assert(t.last() == last.last());
    }
}

proof fn lemma_single_field(f: Seq<char>)
    requires
        !f.contains(','),
    ensures
        text::fields(f, ',') == seq![f],
{
    text::lemma_run_end(f, 0, ',');
    let e = text::run_end(f, 0, ',');
    if e < f.len() {
        assert(f[e] == ',');
    }
    assert(f.subrange(0, f.len() as int) =~= f);
}

/// Listed versions are seen in their order, each as it is.
pub proof fn law_listed_versions_are_seen_as_they_are(v: Seq<ListedVersion>)
    ensures
        listed_views(v).len() == v.len(),
        forall|i: int|
            0 <= i < v.len() ==> {
                let l = #[trigger] listed_views(v)[i];
                &&& l.version == v[i].version@
                &&& l.platforms == text::views(v[i].platforms@)
                &&& l.marked == v[i].marked
            },
{
}

/// A report is seen as it is: the circuits and their files, and those that have none, in their
/// order.
pub proof fn law_reports_are_seen_as_they_are(p: ZkirPlan, cs: Seq<CircuitArtifact>)
    ensures
        p@.wanted.len() == p.wanted@.len(),
        forall|i: int|
            0 <= i < p.wanted@.len() ==> (#[trigger] p@.wanted[i]).0 == p.wanted@[i].0@
                && p@.wanted[i].1 == p.wanted@[i].1@,
        p@.absent.len() == p.absent@.len(),
        forall|i: int|
            0 <= i < p.absent@.len() ==> {
                let a = #[trigger] p@.absent[i];
                &&& a.circuit == p.absent@[i].circuit@
                &&& a.proof == p.absent@[i].proof
                &&& a.reason == p.absent@[i].reason@
            },
        circuit_views(cs).len() == cs.len(),
        forall|i: int| 0 <= i < cs.len() ==> #[trigger] circuit_views(cs)[i] == cs[i]@,
{
}

} // verus!
