//! The versions of the toolchain, and whether the parser keeps up with the compiler.

use vstd::prelude::*;

use crate::error::{CoreError, ErrorView};
use crate::text::quoted;
use crate::text;

use super::{Command, Output, Toolchain};
use super::{CommandView, OutputView, ToolchainView};

verus! {

broadcast use vstd::string::group_string_axioms;

/// The version of the parser.
pub const COMPACTP_VERSION: &'static str = "0.1.0-beta.1";

/// The lowest version of the language that the parser claims to parse.
pub const COMPACTP_MIN_LANGUAGE: &'static str = "0.23.0";

/// The highest version of the language that the parser was validated against.
pub const COMPACTP_TESTED_LANGUAGE: &'static str = "0.23.0";

// ---------------------------------------------------------------------------
// Semantic versions
// ---------------------------------------------------------------------------

/// What a semantic version consists of.
pub struct VersionView {
    pub major: u64,
    pub minor: u64,
    pub patch: u64,
    pub pre: Seq<char>,
    pub build: Seq<char>,
}

/// A semantic version as the `semver` crate holds it.
#[verifier::external_type_specification]
#[verifier::external_body]
pub struct ExVersion(semver::Version);

/// What a version of the `semver` crate consists of.
pub uninterp spec fn version_view(v: semver::Version) -> VersionView;

/// The version that `semver::Version::parse` makes of a text, if any.
pub uninterp spec fn parsed_version(t: Seq<char>) -> Option<semver::Version>;

/// `semver::Version::parse`: the version that the text denotes, absent where it denotes none.
/// The grammar is left to the name; an empty text is no version.
#[verifier::external_body]
pub(crate) fn parse_version(t: &str) -> (r: Option<semver::Version>)
    ensures
        r == parsed_version(t@),
        t@.len() == 0 ==> r is None,
{
    semver::Version::parse(t).ok()
}

/// `semver::Version::new`: the release of these three numbers.
#[verifier::external_body]
fn release_version(major: u64, minor: u64, patch: u64) -> (r: semver::Version)
    ensures
        version_view(r) == release(major, minor, patch),
{
    semver::Version::new(major, minor, patch)
}

/// The release of three numbers: no pre-release, no build metadata.
pub open spec fn release(major: u64, minor: u64, patch: u64) -> VersionView {
    VersionView { major, minor, patch, pre: seq![], build: seq![] }
}

/// Whether the three numbers of a version come before those of another.
pub open spec fn numbers_before(v: VersionView, w: VersionView) -> bool {
    v.major < w.major || (v.major == w.major && (v.minor < w.minor || (v.minor == w.minor
        && v.patch < w.patch)))
}

/// Whether two versions have the same three numbers.
pub open spec fn numbers_equal(v: VersionView, w: VersionView) -> bool {
    v.major == w.major && v.minor == w.minor && v.patch == w.patch
}

/// Whether a version comes before a release: by its numbers, or as a pre-release of it.
pub open spec fn before_release(v: VersionView, w: VersionView) -> bool {
    numbers_before(v, w) || (numbers_equal(v, w) && v.pre.len() > 0)
}

/// Whether a version comes after a release: by its numbers, or as a build of it.
pub open spec fn after_release(v: VersionView, w: VersionView) -> bool {
    numbers_before(w, v) || (numbers_equal(v, w) && v.pre.len() == 0 && v.build.len() > 0)
}

/// `<semver::Version as PartialOrd>::lt`, where one of the two is a release: the numbers
/// decide first, a pre-release comes before its release, and a release with build metadata
/// after the same one without. How two pre-releases or two builds compare is not said.
#[verifier::external_body]
fn precedes(a: &semver::Version, b: &semver::Version) -> (r: bool)
    ensures
        version_view(*b).pre.len() == 0 && version_view(*b).build.len() == 0 ==> r
            == before_release(version_view(*a), version_view(*b)),
        version_view(*a).pre.len() == 0 && version_view(*a).build.len() == 0 ==> r
            == after_release(version_view(*b), version_view(*a)),
{
    a < b
}

/// A version as it is written.
pub open spec fn version_text(v: VersionView) -> Seq<char> {
    text::dec(v.major as nat) + "."@ + text::dec(v.minor as nat) + "."@ + text::dec(v.patch as nat)
        + (if v.pre.len() > 0 {
        "-"@ + v.pre
    } else {
        seq![]
    }) + (if v.build.len() > 0 {
        "+"@ + v.build
    } else {
        seq![]
    })
}

/// `<semver::Version as Display>::fmt`: the three numbers with dots between them, then the
/// pre-release behind a hyphen and the build metadata behind a plus sign, where there are any.
#[verifier::external_body]
fn shown_version(v: &semver::Version) -> (r: String)
    ensures
        r@ == version_text(version_view(*v)),
{
    v.to_string()
}

// ---------------------------------------------------------------------------
// Skew
// ---------------------------------------------------------------------------

/// How the compiler's language relates to what the parser supports.
#[derive(Debug)]
pub struct Skew {
    pub compatible: bool,
    pub detail: Option<String>,
}

/// What a [`Skew`] says.
pub struct SkewView {
    pub compatible: bool,
    pub detail: Option<Seq<char>>,
}

impl View for Skew {
    type V = SkewView;

    open spec fn view(&self) -> SkewView {
        SkewView { compatible: self.compatible, detail: text::opt_view(self.detail) }
    }
}

/// The release the parser requires and was validated against.
pub open spec fn supported() -> VersionView {
    release(0, 23, 0)
}

/// How a compiler that reports `language`, of which the version is `parsed`, relates to what
/// the parser supports.
pub open spec fn skew_of_parsed(language: Seq<char>, parsed: Option<VersionView>) -> SkewView {
    match parsed {
        None => SkewView {
            compatible: false,
            detail: Some("could not parse compiler language version "@ + text::debug_text(language)),
        },
        Some(v) => if before_release(v, supported()) {
            SkewView {
                compatible: false,
                detail: Some(
                    "compactp "@ + COMPACTP_VERSION@ + " requires Compact language >= "@
                        + COMPACTP_MIN_LANGUAGE@ + "; compactc reports "@ + version_text(v)
                        + ". `diagnostics`/`ast`/`symbols` may be wrong."@,
                ),
            }
        } else if after_release(v, supported()) {
            SkewView {
                compatible: true,
                detail: Some(
                    "compactp "@ + COMPACTP_VERSION@ + " is validated against language "@
                        + COMPACTP_TESTED_LANGUAGE@ + "; compactc reports "@ + version_text(v)
                        + ". Parser results may diverge from the compiler."@,
                ),
            }
        } else {
            SkewView { compatible: true, detail: None }
        },
    }
}

/// The parts of a version, where there is one.
pub open spec fn parts_of(v: Option<semver::Version>) -> Option<VersionView> {
    match v {
        Some(v) => Some(version_view(v)),
        None => None,
    }
}

/// How a compiler that reports `language`, of which the version is `parsed`, relates to what
/// the parser supports.
pub fn skew_of(language: &str, parsed: &Option<semver::Version>) -> (r: Skew)
    ensures
        r@ == skew_of_parsed(language@, parts_of(*parsed)),
{
    let lang = match parsed {
        Some(v) => v,
        None => {
            let mut m = "could not parse compiler language version ".to_owned();
            m.append(quoted(language).as_str());
            return Skew { compatible: false, detail: Some(m) };
        },
    };
    let floor = release_version(0, 23, 0);
    if precedes(lang, &floor) {
        let mut m = "compactp ".to_owned();
        m.append(COMPACTP_VERSION);
        m.append(" requires Compact language >= ");
        m.append(COMPACTP_MIN_LANGUAGE);
        m.append("; compactc reports ");
        m.append(shown_version(lang).as_str());
        m.append(". `diagnostics`/`ast`/`symbols` may be wrong.");
        return Skew { compatible: false, detail: Some(m) };
    }
    if precedes(&floor, lang) {
        let mut m = "compactp ".to_owned();
        m.append(COMPACTP_VERSION);
        m.append(" is validated against language ");
        m.append(COMPACTP_TESTED_LANGUAGE);
        m.append("; compactc reports ");
        m.append(shown_version(lang).as_str());
        m.append(". Parser results may diverge from the compiler.");
        return Skew { compatible: true, detail: Some(m) };
    }
    Skew { compatible: true, detail: None }
}

/// How a compiler that reports the language version `language` relates to what the parser
/// supports.
pub fn skew_for(language: &str) -> (r: Skew)
    ensures
        r@ == skew_of_parsed(language@, parts_of(parsed_version(language@))),
{
    skew_of(language, &parse_version(language))
}

/// A language version that is older than what the parser requires is incompatible, and so is
/// one that cannot be read; every other is compatible. Only the supported release, without
/// anything behind it, is passed over in silence.
pub proof fn law_skew_is_reported(language: Seq<char>, parsed: Option<VersionView>)
    ensures
        skew_of_parsed(language, parsed).compatible <==> (parsed matches Some(v)
            && !before_release(v, supported())),
        skew_of_parsed(language, parsed).detail is None <==> parsed == Some(supported()),
{
    match parsed {
        Some(v) => {
            if skew_of_parsed(language, parsed).detail is None {
                assert(v.pre =~= seq![]);
                assert(v.build =~= seq![]);
            }
        },
        None => {},
    }
}

// ---------------------------------------------------------------------------
// Probes
// ---------------------------------------------------------------------------

/// The versions of the toolchain's parts.
#[derive(Debug)]
pub struct Versions {
    /// The program's, not the compiler's.
    pub compact_cli: String,
    pub compiler: String,
    pub language: String,
    pub ledger: String,
    pub runtime: String,
    pub compactp: String,
    pub skew: Skew,
}

/// What a [`Versions`] says.
pub struct VersionsView {
    pub compact_cli: Seq<char>,
    pub compiler: Seq<char>,
    pub language: Seq<char>,
    pub ledger: Seq<char>,
    pub runtime: Seq<char>,
    pub compactp: Seq<char>,
    pub skew: SkewView,
}

impl View for Versions {
    type V = VersionsView;

    open spec fn view(&self) -> VersionsView {
        VersionsView {
            compact_cli: self.compact_cli@,
            compiler: self.compiler@,
            language: self.language@,
            ledger: self.ledger@,
            runtime: self.runtime@,
            compactp: self.compactp@,
            skew: self.skew@,
        }
    }
}

/// The arguments of the probe number `i`: the program's own version, then what the compiler
/// says of itself.
pub open spec fn probe_arguments(tc: ToolchainView, i: int) -> Seq<Seq<char>> {
    if i == 0 {
        seq!["--version"@]
    } else if i == 1 {
        super::compile_arguments(tc, seq!["--version"@])
    } else if i == 2 {
        super::compile_arguments(tc, seq!["--language-version"@])
    } else if i == 3 {
        super::compile_arguments(tc, seq!["--ledger-version"@])
    } else {
        super::compile_arguments(tc, seq!["--runtime-version"@])
    }
}

/// The versions that five answers give.
pub open spec fn versions_of(lines: Seq<Seq<char>>) -> VersionsView {
    VersionsView {
        compact_cli: lines[0],
        compiler: lines[1],
        language: lines[2],
        ledger: lines[3],
        runtime: lines[4],
        compactp: COMPACTP_VERSION@,
        skew: skew_of_parsed(lines[2], parts_of(parsed_version(lines[2]))),
    }
}

/// What follows from an answer to a probe.
pub enum ProbeNext {
    /// The answers so far.
    Ask(Seq<Seq<char>>),
    Done(Result<VersionsView, ErrorView>),
}

/// What follows from the answer to the probe after `lines`: a failure ends the probes.
pub open spec fn after_probe(
    tc: ToolchainView,
    lines: Seq<Seq<char>>,
    answer: Result<OutputView, ErrorView>,
) -> ProbeNext {
    match answer {
        Err(e) => ProbeNext::Done(Err(e)),
        Ok(out) => match super::checked(tc.bin, probe_arguments(tc, lines.len() as int), out) {
            Err(e) => ProbeNext::Done(Err(e)),
            Ok(o) => {
                let now = lines.push(text::trim(o.stdout));
                if now.len() < 5 {
                    ProbeNext::Ask(now)
                } else {
                    ProbeNext::Done(Ok(versions_of(now)))
                }
            },
        },
    }
}

pub open spec fn versions_view(r: Result<Versions, CoreError>) -> Result<VersionsView, ErrorView> {
    match r {
        Ok(v) => Ok(v@),
        Err(e) => Err(e@),
    }
}

/// The probes for the toolchain's versions, with the answers so far.
#[derive(Debug)]
pub struct VersionProbe {
    tc: Toolchain,
    lines: Vec<String>,
}

/// What follows from the answer to a probe.
#[derive(Debug)]
pub enum VersionStep {
    /// Run [`VersionProbe::command`] next.
    Ask(VersionProbe),
    Done(Result<Versions, CoreError>),
}

impl VersionProbe {
    #[verifier::type_invariant]
    spec fn unfinished(self) -> bool {
        self.lines@.len() < 5
    }

    pub closed spec fn toolchain(&self) -> ToolchainView {
        self.tc@
    }

    pub closed spec fn lines(&self) -> Seq<Seq<char>> {
        text::views(self.lines@)
    }

    /// The subprocess to run; none is run where the caller was told to stop.
    pub fn command(&self, cancelled: bool) -> (r: Result<Command, CoreError>)
        ensures
            match r {
                Ok(c) => !cancelled && c@ == (CommandView {
                    bin: self.toolchain().bin,
                    argv: probe_arguments(self.toolchain(), self.lines().len() as int),
                    timeout: self.toolchain().timeout,
                    output_limit: self.toolchain().output_limit,
                }),
                Err(e) => cancelled && e@ == ErrorView::Cancelled,
            },
    {
        let mut args: Vec<String> = Vec::new();
        let n: usize = self.lines.len();
        let flag: &str = if n <= 1 {
            "--version"
        } else if n == 2 {
            "--language-version"
        } else if n == 3 {
            "--ledger-version"
        } else {
            "--runtime-version"
        };
        args.push(flag.to_owned());
        assert(text::views(args@) =~= seq![flag@]);
        if n == 0 {
            self.tc.run(&args, cancelled)
        } else {
            self.tc.run_compile(&args, cancelled)
        }
    }

    /// What follows from the answer to [`VersionProbe::command`].
    pub fn step(self, answer: Result<Output, CoreError>) -> (r: VersionStep)
        ensures
            match after_probe(self.toolchain(), self.lines(), super::output_view(answer)) {
                ProbeNext::Ask(now) => r matches VersionStep::Ask(p) && p.toolchain()
                    == self.toolchain() && p.lines() == now,
                ProbeNext::Done(v) => r matches VersionStep::Done(d) && versions_view(d) == v,
            },
    {
        proof {
            use_type_invariant(&self);
        }
        let out = match answer {
            Ok(out) => out,
            Err(e) => {
                return VersionStep::Done(Err(e));
            },
        };
        let command = match self.command(false) {
            Ok(c) => c,
            Err(e) => {
                return VersionStep::Done(Err(e));
            },
        };
        let line = match command.line(out) {
            Ok(line) => line,
            Err(e) => {
                return VersionStep::Done(Err(e));
            },
        };
        let VersionProbe { tc, mut lines } = self;
        if lines.len() < 4 {
            proof {
                text::lemma_views_push(lines@, line);
            }
            lines.push(line);
            return VersionStep::Ask(VersionProbe { tc, lines });
        }
        let skew = skew_for(lines[2].as_str());
        let v = Versions {
            compact_cli: lines[0].as_str().to_owned(),
            compiler: lines[1].as_str().to_owned(),
            language: lines[2].as_str().to_owned(),
            ledger: lines[3].as_str().to_owned(),
            runtime: line,
            compactp: COMPACTP_VERSION.to_owned(),
            skew,
        };
        VersionStep::Done(Ok(v))
    }
}

impl Toolchain {
    /// Starts to ask the toolchain for its versions.
    pub fn versions(&self) -> (r: VersionProbe)
        ensures
            r.toolchain() == self@,
            r.lines() == Seq::<Seq<char>>::empty(),
    {
        let lines: Vec<String> = Vec::new();
        assert(text::views(lines@) =~= Seq::<Seq<char>>::empty());
        VersionProbe { tc: self.duplicate(), lines }
    }
}

/// Where the probes end from `lines` on if they are answered as `answers` says.
pub open spec fn probe_run(
    tc: ToolchainView,
    lines: Seq<Seq<char>>,
    answers: spec_fn(Seq<Seq<char>>) -> Result<OutputView, ErrorView>,
) -> Result<VersionsView, ErrorView>
    decreases 5 - lines.len(),
    when lines.len() < 5
{
    match after_probe(tc, lines, answers(probe_arguments(tc, lines.len() as int))) {
        ProbeNext::Ask(now) => probe_run(tc, now, answers),
        ProbeNext::Done(r) => r,
    }
}

/// Where every probe succeeds, the versions are what the program and the compiler printed,
/// without the white space around it; and the first probe that fails decides.
pub proof fn law_versions_are_what_was_printed(
    tc: ToolchainView,
    answers: spec_fn(Seq<Seq<char>>) -> Result<OutputView, ErrorView>,
)
    ensures
        (forall|i: int|
            0 <= i < 5 ==> (#[trigger] answers(probe_arguments(tc, i)) matches Ok(o) && o.status
                == 0)) ==> (probe_run(tc, seq![], answers) matches Ok(v) && v.compact_cli
            == text::trim(answers(probe_arguments(tc, 0))->Ok_0.stdout) && v.compiler
            == text::trim(answers(probe_arguments(tc, 1))->Ok_0.stdout) && v.language
            == text::trim(answers(probe_arguments(tc, 2))->Ok_0.stdout) && v.ledger == text::trim(
            answers(probe_arguments(tc, 3))->Ok_0.stdout,
        ) && v.runtime == text::trim(answers(probe_arguments(tc, 4))->Ok_0.stdout)),
        answers(probe_arguments(tc, 0)) matches Err(e) ==> probe_run(tc, seq![], answers) == Err::<
            VersionsView,
            ErrorView,
        >(e),
{
    reveal_with_fuel(probe_run, 6);
    assert(answers(probe_arguments(tc, 0)) == answers(probe_arguments(tc, 0)));
}

/// The parser needs language 0.23.0. A compiler whose language comes before it is incompatible, as
/// is one whose language cannot be read, and every other is compatible. The numbers decide, the
/// first that differs before the others; a pre-release of 0.23.0 comes before it.
pub proof fn law_the_language_decides(language: Seq<char>, v: VersionView)
    ensures
        skew_of_parsed(language, Some(v)).compatible <==> v.major > 0 || v.minor > 23 || (v.minor
            == 23 && (v.patch > 0 || v.pre.len() == 0)),
        !skew_of_parsed(language, None).compatible,
{
}

/// A warning tells what the compiler reports and what the parser needs. Where the language is
/// incompatible it says that results may be wrong, where it is newer that they may diverge, and
/// where it cannot be read it shows what was reported.
pub proof fn law_warnings_tell_both_versions(language: Seq<char>, v: VersionView)
    ensures
        skew_of_parsed(language, None).detail == Some(
            "could not parse compiler language version "@ + text::debug_text(language),
        ),
        !skew_of_parsed(language, Some(v)).compatible ==> skew_of_parsed(language, Some(v)).detail
            == Some(
            "compactp "@ + "0.1.0-beta.1"@ + " requires Compact language >= "@ + "0.23.0"@
                + "; compactc reports "@ + version_text(v)
                + ". `diagnostics`/`ast`/`symbols` may be wrong."@,
        ),
        skew_of_parsed(language, Some(v)).compatible && v != supported() ==> skew_of_parsed(
            language,
            Some(v),
        ).detail == Some(
            "compactp "@ + "0.1.0-beta.1"@ + " is validated against language "@ + "0.23.0"@
                + "; compactc reports "@ + version_text(v)
                + ". Parser results may diverge from the compiler."@,
        ),
{
    if skew_of_parsed(language, Some(v)).detail is None {
        assert(v.pre =~= seq![]);
        assert(v.build =~= seq![]);
    }
}

/// The probes ask the program for its own version and the pinned compiler for its own, its
/// language's, its ledger's and its runtime's, in this order.
pub proof fn law_every_part_is_asked(tc: ToolchainView)
    ensures
        probe_arguments(tc, 0) == seq!["--version"@],
        forall|i: int|
            1 <= i < 5 ==> (#[trigger] probe_arguments(tc, i))[0] == "compile"@ && (
            tc.compiler_version matches Some(p) ==> probe_arguments(tc, i)[1] == "+"@ + p),
        probe_arguments(tc, 1).last() == "--version"@,
        probe_arguments(tc, 2).last() == "--language-version"@,
        probe_arguments(tc, 3).last() == "--ledger-version"@,
        probe_arguments(tc, 4).last() == "--runtime-version"@,
        forall|i: int|
            1 <= i < 5 ==> (#[trigger] probe_arguments(tc, i)).len() == if tc.compiler_version
                is Some {
                3nat
            } else {
                2nat
            },
{
}

/// An answer is taken down without the white space around it, behind those before it; the fifth is
/// the last. Each answer is told under its own name, the parser's version beside them, and the skew
/// is that of the language that the compiler reported.
pub proof fn law_answers_are_taken_down_in_order(
    tc: ToolchainView,
    lines: Seq<Seq<char>>,
    out: OutputView,
)
    requires
        lines.len() < 5,
        out.status == 0,
    ensures
        lines.len() < 4 ==> after_probe(tc, lines, Ok(out)) == ProbeNext::Ask(
            lines.push(text::trim(out.stdout)),
        ),
        lines.len() == 4 ==> (after_probe(tc, lines, Ok(out)) matches ProbeNext::Done(r)
            && r matches Ok(v) && v.compact_cli == lines[0] && v.compiler == lines[1] && v.language
            == lines[2] && v.ledger == lines[3] && v.runtime == text::trim(out.stdout) && v.compactp
            == "0.1.0-beta.1"@ && v.skew == skew_of_parsed(
            lines[2],
            parts_of(parsed_version(lines[2])),
        )),
{
}

/// A probe that fails ends the probes with its failure; one that exits with another code than zero
/// is told as a failure of the command that was run.
pub proof fn law_a_failed_probe_decides(
    tc: ToolchainView,
    lines: Seq<Seq<char>>,
    e: ErrorView,
    out: OutputView,
)
    ensures
        after_probe(tc, lines, Err(e)) == ProbeNext::Done(Err(e)),
        out.status != 0 ==> after_probe(tc, lines, Ok(out)) == ProbeNext::Done(
            Err(
                ErrorView::ToolchainFailed {
                    cmd: tc.bin + " "@ + text::joined(
                        probe_arguments(tc, lines.len() as int),
                        " "@,
                    ),
                    code: out.status,
                    stderr: out.stderr,
                },
            ),
        ),
{
}

/// The parts of a read version are those of the version that was read.
pub proof fn law_versions_are_read_whole(t: Seq<char>)
    ensures
        parsed_version(t) is None <==> parts_of(parsed_version(t)) is None,
        parsed_version(t) matches Some(v) ==> parts_of(parsed_version(t)) == Some(version_view(v)),
{
}

/// Versions are seen as they are, each under its own name, and so is a failure in their place.
pub proof fn law_versions_are_seen_as_they_are(v: Versions, e: CoreError)
    ensures
        v@.compact_cli == v.compact_cli@,
        v@.compiler == v.compiler@,
        v@.language == v.language@,
        v@.ledger == v.ledger@,
        v@.runtime == v.runtime@,
        v@.compactp == v.compactp@,
        v@.skew.compatible == v.skew.compatible,
        v@.skew.detail == text::opt_view(v.skew.detail),
        versions_view(Ok(v)) == Ok::<VersionsView, ErrorView>(v@),
        versions_view(Err(e)) == Err::<VersionsView, ErrorView>(e@),
{
}

/// A version is written with its three numbers in their order and dots between them; a pre-release
/// follows behind a hyphen, and build metadata behind a plus sign, each only where there is one.
pub proof fn law_versions_are_written_out(
    major: u64,
    minor: u64,
    patch: u64,
    pre: Seq<char>,
    build: Seq<char>,
)
    ensures
        ({
            let none = Seq::<char>::empty();
            let numbers = text::dec(major as nat) + seq!['.'] + text::dec(minor as nat) + seq!['.']
                + text::dec(patch as nat);
            let with = |p: Seq<char>, b: Seq<char>| version_text(
                VersionView { major, minor, patch, pre: p, build: b },
            );
            &&& with(none, none) == numbers
            &&& pre.len() > 0 ==> with(pre, none) == numbers + seq!['-'] + pre
            &&& build.len() > 0 ==> with(none, build) == numbers + seq!['+'] + build
            &&& pre.len() > 0 && build.len() > 0 ==> with(pre, build) == numbers + seq!['-'] + pre
                + seq!['+'] + build
        }),
{
    reveal_strlit(".");
    reveal_strlit("-");
    reveal_strlit("+");
    assert("."@ =~= seq!['.']);
    assert("-"@ =~= seq!['-']);
    assert("+"@ =~= seq!['+']);
    let none = Seq::<char>::empty();
    let numbers = text::dec(major as nat) + seq!['.'] + text::dec(minor as nat) + seq!['.']
        + text::dec(patch as nat);
    assert(numbers + none + none =~= numbers);
    assert(numbers + (seq!['-'] + pre) + none =~= numbers + seq!['-'] + pre);
    assert(numbers + none + (seq!['+'] + build) =~= numbers + seq!['+'] + build);
    assert(numbers + (seq!['-'] + pre) + (seq!['+'] + build) =~= numbers + seq!['-'] + pre
        + seq!['+'] + build);
}

} // verus!
