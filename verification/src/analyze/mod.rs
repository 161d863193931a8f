//! Analysis of Compact source text without the compiler.

pub mod depth;
pub mod links;
pub mod symbols;
pub mod syntax;
pub mod tokens;

pub use depth::{is_over_max_depth, structural_depth, MAX_STRUCTURAL_DEPTH};
pub use symbols::{ast_json, symbols, Symbol, SymbolKind};

use compactp_diagnostics::Diagnostic as ParserDiagnostic;
use vstd::prelude::*;

use crate::diagnostic;
use crate::diagnostic::{Diagnostic, DiagnosticView, Severity, Source};
use crate::json;
use crate::text::decimal;
use crate::text;
use crate::time::{Duration, NANOS_PER_SEC};
use syntax::{Element, PARSER_MAX_DEPTH};

verus! {

broadcast use vstd::string::group_string_axioms;

/// Largest source that is parsed or read, in bytes (2 MiB). It bounds the work and the
/// memory of a single call.
pub const MAX_SOURCE_BYTES: usize = 2_097_152;

#[derive(Debug)]
pub struct ParseOutcome {
    pub success: bool,
    /// The count before any limit is applied.
    pub error_count: usize,
    pub truncated: bool,
    pub diagnostics: Vec<Diagnostic>,
}

/// What a [`ParseOutcome`] says.
pub struct ParseOutcomeView {
    pub success: bool,
    pub error_count: nat,
    pub truncated: bool,
    pub diagnostics: Seq<DiagnosticView>,
}

impl View for ParseOutcome {
    type V = ParseOutcomeView;

    open spec fn view(&self) -> ParseOutcomeView {
        ParseOutcomeView {
            success: self.success,
            error_count: self.error_count as nat,
            truncated: self.truncated,
            diagnostics: diagnostic::diagnostic_views(self.diagnostics@),
        }
    }
}

#[derive(Debug)]
pub struct Stats {
    pub file_size_bytes: usize,
    pub token_count: usize,
    pub node_count: usize,
    pub error_count: usize,
    pub recovery_count: usize,
    pub parse_time: Duration,
}

/// The message with which a source that is too deep is refused.
pub open spec fn depth_refusal() -> Seq<char> {
    "input structural depth exceeds maximum ("@ + text::dec(MAX_STRUCTURAL_DEPTH as nat)
        + "); refusing to parse"@
}

/// The message with which a source that is too deep is refused.
pub fn depth_refusal_message() -> (r: String)
    ensures
        r@ == depth_refusal(),
{
    let mut s = "input structural depth exceeds maximum (".to_owned();
    s.append(decimal(MAX_STRUCTURAL_DEPTH as u128).as_str());
    s.append("); refusing to parse");
    s
}

/// The outcome for a source that is too deep: one raw diagnostic.
pub open spec fn refused_outcome(file: Seq<char>) -> ParseOutcomeView {
    ParseOutcomeView {
        success: false,
        error_count: 1,
        truncated: false,
        diagnostics: seq![
            DiagnosticView {
                severity: Severity::Error,
                source: Source::Compactp,
                message: depth_refusal(),
                file: Some(file),
                span: None,
                code: None,
                raw: true,
            },
        ],
    }
}

/// What the parser's errors say, read through its JSON renderer.
pub open spec fn error_diagnostics(
    errors: Seq<ParserDiagnostic>,
    source: Seq<char>,
    file: Seq<char>,
) -> Seq<DiagnosticView> {
    Seq::new(
        errors.len(),
        |i: int|
            diagnostic::diagnostic_of(
                json::value_view(diagnostic::rendered(errors[i], source)),
                file,
            ),
    )
}

/// The outcome of a parse with the errors `all`, of which at most `max` are shown.
pub open spec fn parse_outcome(all: Seq<DiagnosticView>, max: Option<usize>) -> ParseOutcomeView {
    let shown: int = match max {
        Some(n) => if n < all.len() {
            n as int
        } else {
            all.len() as int
        },
        None => all.len() as int,
    };
    ParseOutcomeView {
        success: all.len() == 0,
        error_count: all.len(),
        truncated: shown < all.len(),
        diagnostics: all.take(shown),
    }
}

/// The outcome of a parse that met `errors`, of which at most `max` are shown.
pub fn outcome_of_errors(
    errors: &Vec<ParserDiagnostic>,
    source: &str,
    file: &str,
    max: Option<usize>,
) -> (r: ParseOutcome)
    ensures
        r@ == parse_outcome(error_diagnostics(errors@, source@, file@), max),
{
    let error_count: usize = errors.len();
    let take: usize = match max {
        Some(n) => n,
        None => usize::MAX,
    };
    let shown: usize = if take < error_count {
        take
    } else {
        error_count
    };
    let ghost all = error_diagnostics(errors@, source@, file@);
    let mut diagnostics: Vec<Diagnostic> = Vec::new();
    let mut i: usize = 0;
    while i < shown
        invariant
            i <= shown <= errors.len(),
            all == error_diagnostics(errors@, source@, file@),
            diagnostics.len() == i,
            forall|j: int| 0 <= j < i ==> (#[trigger] diagnostics@[j])@ == all[j],
        decreases shown - i,
    {
        diagnostics.push(Diagnostic::from_compactp(&errors[i], source, file));
        i = i + 1;
    }
    assert(diagnostic::diagnostic_views(diagnostics@) =~= all.take(shown as int));
    ParseOutcome {
        success: error_count == 0,
        error_count,
        truncated: error_count > take,
        diagnostics,
    }
}

/// What parsing a source text gives.
pub open spec fn source_outcome(
    source: Seq<char>,
    file: Seq<char>,
    max: Option<usize>,
) -> ParseOutcomeView {
    if depth::too_deep(source) {
        refused_outcome(file)
    } else {
        parse_outcome(
            error_diagnostics(
                syntax::parse_errors(syntax::parsed(source, PARSER_MAX_DEPTH)),
                source,
                file,
            ),
            max,
        )
    }
}

/// Every syntax error of a source text, at most `max` of them in full.
pub fn diagnostics(source: &str, file: &str, max: Option<usize>) -> (r: ParseOutcome)
    ensures
        r@ == source_outcome(source@, file@, max),
{
    if is_over_max_depth(source) {
        let d = Diagnostic {
            severity: Severity::Error,
            source: Source::Compactp,
            message: depth_refusal_message(),
            file: Some(file.to_owned()),
            span: None,
            code: None,
            raw: true,
        };
        let mut ds: Vec<Diagnostic> = Vec::new();
        ds.push(d);
        assert(diagnostic::diagnostic_views(ds@) =~= refused_outcome(file@).diagnostics);
        return ParseOutcome { success: false, error_count: 1, truncated: false, diagnostics: ds };
    }
    let result = syntax::parse_with(source, PARSER_MAX_DEPTH);
    outcome_of_errors(&syntax::errors(&result), source, file, max)
}

/// A point of the monotonic clock.
#[verifier::external_type_specification]
#[verifier::external_body]
pub struct ExInstant(std::time::Instant);

/// `std::time::Instant::now`. Nothing is said of the point it returns.
#[verifier::external_body]
fn clock() -> std::time::Instant {
    std::time::Instant::now()
}

/// `std::time::Instant::elapsed`, as whole seconds and the nanoseconds beyond them, which are
/// less than a second. How long it is depends on the clock and is left unsaid.
#[verifier::external_body]
fn elapsed(start: &std::time::Instant) -> (r: (u64, u32))
    ensures
        r.1 < NANOS_PER_SEC,
{
    let d = start.elapsed();
    (d.as_secs(), d.subsec_nanos())
}

/// The numbers for a source text of `bytes` bytes and `tokens` tokens with this syntax tree
/// and `errors` errors, parsed in `parse_time`.
pub fn stats_of_tree(
    bytes: usize,
    tokens: usize,
    es: &Vec<Element>,
    errors: usize,
    parse_time: Duration,
) -> (r: Stats)
    ensures
        r.file_size_bytes == bytes,
        r.token_count == tokens,
        r.node_count == syntax::node_count(syntax::element_views(es@)),
        r.error_count == errors,
        r.recovery_count == syntax::recovery_count(syntax::element_views(es@)),
        r.parse_time == parse_time,
{
    let (node_count, recovery_count) = syntax::count_nodes(es);
    Stats {
        file_size_bytes: bytes,
        token_count: tokens,
        node_count,
        error_count: errors,
        recovery_count,
        parse_time,
    }
}

/// Token, node, error and recovery counts of a source text. A source that is too deep is not
/// parsed: it has one error, no nodes, and took no time. The errors are as many as
/// [`diagnostics`] counts, and no more nodes come from recovery than there are.
pub fn stats(source: &str) -> (r: Stats)
    ensures
        r.file_size_bytes == text::byte_len(source@),
        r.token_count == depth::token_kinds(source@).len(),
        depth::too_deep(source@) ==> r.node_count == 0 && r.error_count == 1 && r.recovery_count
            == 0 && r.parse_time@ == 0,
        !depth::too_deep(source@) ==> ({
            let result = syntax::parsed(source@, PARSER_MAX_DEPTH);
            let es = syntax::tree_elements(result);
            &&& r.node_count == syntax::node_count(es)
            &&& r.error_count == syntax::parse_errors(result).len()
            &&& r.recovery_count == syntax::recovery_count(es)
            &&& r.node_count >= 1
        }),
        r.recovery_count <= r.node_count,
        forall|file: Seq<char>, max: Option<usize>|
            r.error_count == (#[trigger] source_outcome(source@, file, max)).error_count,
{
    let token_count: usize = depth::lex(source).len();
    if is_over_max_depth(source) {
        return Stats {
            file_size_bytes: source.len(),
            token_count,
            node_count: 0,
            error_count: 1,
            recovery_count: 0,
            parse_time: Duration::from_secs(0),
        };
    }
    let start = clock();
    let result = syntax::parse_with(source, PARSER_MAX_DEPTH);
    let (secs, nanos) = elapsed(&start);
    let parse_time = match Duration::from_parts(secs, nanos) {
        Some(d) => d,
        None => Duration::from_secs(secs),
    };
    let es = syntax::elements(&result);
    proof {
        syntax::lemma_counts(syntax::element_views(es@));
    }
    stats_of_tree(source.len(), token_count, &es, syntax::errors(&result).len(), parse_time)
}

/// The limit on the diagnostics shown never touches the error count, and the outcome says
/// whether any were left out.
pub proof fn law_error_count_survives_truncation(all: Seq<DiagnosticView>, max: Option<usize>)
    ensures
        parse_outcome(all, max).error_count == all.len(),
        parse_outcome(all, max).success <==> all.len() == 0,
        parse_outcome(all, max).truncated <==> parse_outcome(all, max).diagnostics.len()
            < all.len(),
        parse_outcome(all, max).diagnostics.is_prefix_of(all),
        max matches Some(n) ==> parse_outcome(all, max).diagnostics.len() == if n < all.len() {
            n as nat
        } else {
            all.len()
        },
        max is None ==> parse_outcome(all, max).diagnostics == all,
{
    assert(all.take(all.len() as int) =~= all);
}

/// A source that is too deep is refused by every analysis alike: one raw diagnostic, and no
/// symbols.
pub proof fn law_too_deep_is_refused_everywhere(
    source: Seq<char>,
    file: Seq<char>,
    max: Option<usize>,
)
    requires
        depth::too_deep(source),
    ensures
        !source_outcome(source, file, max).success,
        source_outcome(source, file, max).error_count == 1,
        source_outcome(source, file, max).diagnostics.len() == 1,
        source_outcome(source, file, max).diagnostics[0].message == depth_refusal(),
        source_outcome(source, file, max).diagnostics[0].raw,
        symbols::source_symbols(source).len() == 0,
{
}

/// Every error that the parser met is reported, in the order in which it met them, each as the
/// parser renders it; a limit only cuts the list short, and without errors the source succeeds.
pub proof fn law_every_syntax_error_is_reported(
    source: Seq<char>,
    file: Seq<char>,
    max: Option<usize>,
    i: int,
)
    requires
        !depth::too_deep(source),
    ensures
        ({
            let errors = syntax::parse_errors(syntax::parsed(source, PARSER_MAX_DEPTH));
            let out = source_outcome(source, file, max);
            &&& out.error_count == errors.len()
            &&& out.success <==> errors.len() == 0
            &&& max is None ==> out.diagnostics.len() == errors.len() && !out.truncated
            &&& max matches Some(n) ==> (out.truncated <==> n < errors.len())
            &&& 0 <= i < errors.len() && (max matches Some(n) ==> i < n) ==> i
                < out.diagnostics.len() && out.diagnostics[i] == diagnostic::diagnostic_of(
                json::value_view(diagnostic::rendered(errors[i], source)),
                file,
            )
        }),
{
}

/// The diagnostic of a source that is too deep says so, of the file that was asked about.
pub proof fn law_a_refusal_says_why(source: Seq<char>, file: Seq<char>, max: Option<usize>)
    requires
        depth::too_deep(source),
    ensures
        ({
            let out = source_outcome(source, file, max);
            let d = out.diagnostics[0];
            &&& !out.truncated
            &&& d.file == Some(file)
            &&& d.severity == Severity::Error
            &&& d.source == Source::Compactp
            &&& d.span is None && d.code is None
            &&& d.message == "input structural depth exceeds maximum ("@ + text::dec(512)
                + "); refusing to parse"@
        }),
{
}

/// The symbols of a source that is not too deep are those of the whole tree that the parser makes
/// of it: its top level, outside of any module.
pub proof fn law_symbols_are_those_of_the_whole_tree(source: Seq<char>)
    requires
        !depth::too_deep(source),
    ensures
        ({
            let es = syntax::tree_elements(syntax::parsed(source, PARSER_MAX_DEPTH));
            es.len() > 0 && es[0].kind == tokens::SOURCE_FILE ==> symbols::source_symbols(source)
                == symbols::symbols_in(
                es,
                1,
                es.len() as int,
                1,
                None,
                symbols::scope_exports(es, 1, es.len() as int, 1),
            )
        }),
{
}

/// What is said of a parse is what it came to, each under its own name.
pub proof fn law_parses_are_seen_as_they_are(o: ParseOutcome)
    ensures
        o@.success == o.success,
        o@.error_count == o.error_count,
        o@.truncated == o.truncated,
        o@.diagnostics == diagnostic::diagnostic_views(o.diagnostics@),
{
}

} // verus!
