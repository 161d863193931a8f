//! Diagnostics, whichever tool they come from.

use compactp_diagnostics::Diagnostic as ParserDiagnostic;
use vstd::prelude::*;

use crate::json::{from_value, Json, JsonView};
use crate::text::same_text;
use crate::json;
use crate::text;

verus! {

broadcast use vstd::string::group_string_axioms;

#[derive(Debug, Clone, Copy, PartialEq, Eq, Structural)]
pub enum Severity {
    Error,
    Warning,
    Note,
}

/// Which tool produced a diagnostic. The two streams are never merged: they can
/// disagree, and a reader must be able to tell which one spoke.
#[derive(Debug, Clone, Copy, PartialEq, Eq, Structural)]
pub enum Source {
    Compactp,
    Compactc,
}

#[derive(Debug, Clone, Copy, PartialEq, Eq, Structural)]
pub struct Position {
    /// Byte offset. Present for `compactp`; absent for `compactc`.
    pub offset: Option<u32>,
    /// 1-based.
    pub line: u32,
    /// 1-based.
    pub column: u32,
}

#[derive(Debug, Clone, Copy, PartialEq, Eq, Structural)]
pub struct Span {
    pub start: Position,
    pub end: Option<Position>,
}

#[derive(Debug, PartialEq, Eq)]
pub struct Diagnostic {
    pub severity: Severity,
    pub source: Source,
    pub message: String,
    pub file: Option<String>,
    pub span: Option<Span>,
    pub code: Option<String>,
    /// True where no structure could be read out of the tool's output, which is then
    /// passed on verbatim. A diagnostic is never silently dropped.
    pub raw: bool,
}

/// What a [`Diagnostic`] says.
pub struct DiagnosticView {
    pub severity: Severity,
    pub source: Source,
    pub message: Seq<char>,
    pub file: Option<Seq<char>>,
    pub span: Option<Span>,
    pub code: Option<Seq<char>>,
    pub raw: bool,
}

impl View for Diagnostic {
    type V = DiagnosticView;

    open spec fn view(&self) -> DiagnosticView {
        DiagnosticView {
            severity: self.severity,
            source: self.source,
            message: self.message@,
            file: text::opt_view(self.file),
            span: self.span,
            code: text::opt_view(self.code),
            raw: self.raw,
        }
    }
}

/// What the diagnostics of a list say.
pub open spec fn diagnostic_views(ds: Seq<Diagnostic>) -> Seq<DiagnosticView> {
    Seq::new(ds.len(), |i: int| ds[i]@)
}

/// A diagnostic of the `compactp` parser.
#[verifier::external_type_specification]
#[verifier::external_body]
pub struct ExParserDiagnostic(ParserDiagnostic);

/// The JSON document that `compactp_diagnostics::render_json` makes of a diagnostic and
/// the source text it speaks of.
pub uninterp spec fn rendered(
    d: ParserDiagnostic,
    source: Seq<char>,
) -> serde_json::Value;

/// `compactp_diagnostics::render_json`: an object with the severity, the code, the message
/// and the spans, with lines and columns computed from the source text. The document is a
/// function of the two arguments and is left to the name. What nests deepest in it is a number
/// in an end of a secondary span: an object, a list, an object, an object.
#[verifier::external_body]
fn render_json(d: &ParserDiagnostic, source: &str) -> (r: serde_json::Value)
    ensures
        r == rendered(*d, source@),
        json::shallow(json::value_view(r), json::MAX_LEVELS as nat),
{
    compactp_diagnostics::render_json(d, source)
}

/// The severity a rendered diagnostic names; an unknown or missing one is an error.
pub open spec fn severity_of(v: JsonView) -> Severity {
    if json::str_of(json::member(v, "severity"@)) == Some("warning"@) {
        Severity::Warning
    } else if json::str_of(json::member(v, "severity"@)) == Some("note"@) {
        Severity::Note
    } else {
        Severity::Error
    }
}

/// The position in a document, where it has a line and a column.
pub open spec fn position_of(p: JsonView) -> Option<Position> {
    match (json::uint_of(json::member(p, "line"@)), json::uint_of(json::member(p, "column"@))) {
        (Some(line), Some(column)) => Some(
            Position {
                offset: match json::uint_of(json::member(p, "offset"@)) {
                    Some(n) => Some(n as u32),
                    None => None,
                },
                line: line as u32,
                column: column as u32,
            },
        ),
        _ => None,
    }
}

/// The primary span of a rendered diagnostic, where it has a start.
pub open spec fn span_of(v: JsonView) -> Option<Span> {
    let s = json::member(v, "primary_span"@);
    match position_of(json::member(s, "start"@)) {
        Some(start) => Some(Span { start, end: position_of(json::member(s, "end"@)) }),
        None => None,
    }
}

/// The code of a rendered diagnostic: its prefix and number, written together.
pub open spec fn code_of(v: JsonView) -> Option<Seq<char>> {
    let code = json::member(v, "code"@);
    match (json::member(code, "prefix"@), json::member(code, "number"@)) {
        (JsonView::Str(prefix), JsonView::Number { text, .. }) => Some(prefix + text),
        _ => None,
    }
}

/// The message of a rendered diagnostic; empty where it has none.
pub open spec fn message_of(v: JsonView) -> Seq<char> {
    match json::str_of(json::member(v, "message"@)) {
        Some(m) => m,
        None => seq![],
    }
}

/// The diagnostic that a rendered `compactp` diagnostic stands for.
pub open spec fn diagnostic_of(v: JsonView, file: Seq<char>) -> DiagnosticView {
    DiagnosticView {
        severity: severity_of(v),
        source: Source::Compactp,
        message: message_of(v),
        file: Some(file),
        span: span_of(v),
        code: code_of(v),
        raw: false,
    }
}

/// The json::member `key` of `v`, or `Null`.
fn at<'a>(v: &'a Json, key: &str, null: &'a Json) -> (r: &'a Json)
    requires
        null@ == JsonView::Null,
    ensures
        r@ == json::member(v@, key@),
{
    match v.get(key) {
        Some(m) => m,
        None => null,
    }
}

/// The position in a document, where it has a line and a column.
fn read_position(p: &Json) -> (r: Option<Position>)
    ensures
        r == position_of(p@),
{
    let null = Json::Null;
    let line = at(p, "line", &null).as_u64();
    let column = at(p, "column", &null).as_u64();
    let offset = match at(p, "offset", &null).as_u64() {
        Some(n) => Some(n as u32),
        None => None,
    };
    match (line, column) {
        (Some(l), Some(c)) => Some(Position { offset, line: l as u32, column: c as u32 }),
        _ => None,
    }
}

impl Diagnostic {
    /// A `compactp` diagnostic. It is rendered to JSON by the parser's own renderer, which
    /// computes lines and columns, and read back from there.
    pub fn from_compactp(
        d: &ParserDiagnostic,
        source_text: &str,
        file: &str,
    ) -> (r: Diagnostic)
        ensures
            r@ == diagnostic_of(json::value_view(rendered(*d, source_text@)), file@),
    {
        let v = render_json(d, source_text);
        Self::from_render_json(&from_value(&v), file)
    }

    /// The diagnostic that a rendered `compactp` diagnostic stands for.
    pub fn from_render_json(v: &Json, file: &str) -> (r: Diagnostic)
        ensures
            r@ == diagnostic_of(v@, file@),
    {
        let null = Json::Null;
        let severity = match at(v, "severity", &null).as_str() {
            Some(s) => {
                if same_text(s, "warning") {
                    Severity::Warning
                } else if same_text(s, "note") {
                    Severity::Note
                } else {
                    Severity::Error
                }
            },
            None => Severity::Error,
        };
        let primary = at(v, "primary_span", &null);
        let span = match read_position(at(primary, "start", &null)) {
            Some(start) => Some(Span { start, end: read_position(at(primary, "end", &null)) }),
            None => None,
        };
        let code_member = at(v, "code", &null);
        let code = match (at(code_member, "prefix", &null), at(code_member, "number", &null)) {
            (Json::Str(prefix), Json::Number { text, .. }) => {
                let mut c = prefix.clone();
                c.append(text.as_str());
                Some(c)
            },
            _ => None,
        };
        let message = match at(v, "message", &null).as_str() {
            Some(m) => m.to_owned(),
            None => String::new(),
        };
        Diagnostic {
            severity,
            source: Source::Compactp,
            message,
            file: Some(file.to_owned()),
            span,
            code,
            raw: false,
        }
    }
}

// ---------------------------------------------------------------------------
// Laws
// ---------------------------------------------------------------------------

/// Whether the document `p` gives the place `at`: the line and the column, and the offset where
/// there is one.
pub open spec fn gives_place(p: JsonView, at: Position) -> bool {
    &&& exists|t: Seq<char>|
        json::names(p, "line"@, #[trigger] json::number(at.line as u64, t))
    &&& exists|t: Seq<char>|
        json::names(p, "column"@, #[trigger] json::number(at.column as u64, t))
    &&& match at.offset {
        Some(n) => exists|t: Seq<char>|
            json::names(p, "offset"@, #[trigger] json::number(n as u64, t)),
        None => json::lacks(p, "offset"@),
    }
}

/// A syntax error is placed where the parser's renderer places it: where the rendered diagnostic
/// has a primary span that starts at one place and ends at another, so does the diagnostic.
pub proof fn law_places_are_kept(
    v: JsonView,
    file: Seq<char>,
    span: JsonView,
    start: JsonView,
    end: JsonView,
    from: Position,
    to: Position,
)
    requires
        json::names(v, "primary_span"@, span),
        json::names(span, "start"@, start),
        json::names(span, "end"@, end),
        gives_place(start, from),
        gives_place(end, to),
    ensures
        diagnostic_of(v, file).span == Some(Span { start: from, end: Some(to) }),
{
    json::law_members_are_found_by_name(v, "primary_span"@, span);
    json::law_members_are_found_by_name(span, "start"@, start);
    json::law_members_are_found_by_name(span, "end"@, end);
    lemma_place(start, from);
    lemma_place(end, to);
}

/// Where the renderer gives no end, or one without a line or a column, the span has a start only;
/// where the start lacks a line or a column, there is no span.
pub proof fn law_missing_places_are_not_made_up(
    v: JsonView,
    file: Seq<char>,
    span: JsonView,
    start: JsonView,
    from: Position,
)
    requires
        json::names(v, "primary_span"@, span),
    ensures
        json::names(span, "start"@, start) && gives_place(start, from) && json::lacks(
            span,
            "end"@,
        ) ==> diagnostic_of(v, file).span == Some(Span { start: from, end: None }),
        json::lacks(span, "start"@) ==> diagnostic_of(v, file).span is None,
        json::names(span, "start"@, start) && (json::lacks(start, "line"@) || json::lacks(
            start,
            "column"@,
        )) ==> diagnostic_of(v, file).span is None,
{
    json::law_members_are_found_by_name(v, "primary_span"@, span);
    json::law_members_are_found_by_name(span, "start"@, start);
    json::law_members_are_found_by_name(span, "end"@, JsonView::Null);
    json::law_members_are_found_by_name(start, "line"@, JsonView::Null);
    json::law_members_are_found_by_name(start, "column"@, JsonView::Null);
    let null = JsonView::Null;
    assert(json::lacks(null, "line"@));
    json::law_members_are_found_by_name(null, "line"@, null);
    if gives_place(start, from) {
        lemma_place(start, from);
    }
}

/// Two renderings whose spans start on different lines, or in different columns, give diagnostics
/// whose spans do.
pub proof fn law_places_are_told_apart(
    v: JsonView,
    w: JsonView,
    file: Seq<char>,
    vs: JsonView,
    ws: JsonView,
    a: JsonView,
    b: JsonView,
    from: Position,
    to: Position,
)
    requires
        json::names(v, "primary_span"@, vs),
        json::names(w, "primary_span"@, ws),
        json::names(vs, "start"@, a),
        json::names(ws, "start"@, b),
        gives_place(a, from),
        gives_place(b, to),
    ensures
        diagnostic_of(v, file).span matches Some(s) && s.start == from,
        diagnostic_of(w, file).span matches Some(s) && s.start == to,
        from != to ==> diagnostic_of(v, file) != diagnostic_of(w, file),
{
    json::law_members_are_found_by_name(v, "primary_span"@, vs);
    json::law_members_are_found_by_name(vs, "start"@, a);
    json::law_members_are_found_by_name(w, "primary_span"@, ws);
    json::law_members_are_found_by_name(ws, "start"@, b);
    lemma_place(a, from);
    lemma_place(b, to);
}

proof fn lemma_place(p: JsonView, at: Position)
    requires
        gives_place(p, at),
    ensures
        position_of(p) == Some(at),
{
    let t = choose|t: Seq<char>|
        json::names(p, "line"@, #[trigger] json::number(at.line as u64, t));
    json::law_members_are_found_by_name(p, "line"@, json::number(at.line as u64, t));
    let t = choose|t: Seq<char>|
        json::names(p, "column"@, #[trigger] json::number(at.column as u64, t));
    json::law_members_are_found_by_name(p, "column"@, json::number(at.column as u64, t));
    match at.offset {
        Some(n) => {
            let t = choose|t: Seq<char>|
                json::names(p, "offset"@, #[trigger] json::number(n as u64, t));
            json::law_members_are_found_by_name(p, "offset"@, json::number(n as u64, t));
        },
        None => {
            json::law_members_are_found_by_name(p, "offset"@, JsonView::Null);
        },
    }
}

/// What else a rendered diagnostic says is kept as it is: the severity by its name, with an error
/// where none is named, the message, and the code, of which the prefix stands before the number.
/// The file is the one that was asked about, the source is the parser, and nothing is raw.
pub proof fn law_renderings_are_kept(
    v: JsonView,
    file: Seq<char>,
    severity: Seq<char>,
    message: Seq<char>,
    code: JsonView,
    prefix: Seq<char>,
    uint: Option<u64>,
    number: Seq<char>,
)
    ensures
        ({
            let d = diagnostic_of(v, file);
            &&& d.source == Source::Compactp
            &&& d.file == Some(file)
            &&& !d.raw
            &&& json::names(v, "severity"@, JsonView::Str(severity)) ==> {
                &&& severity == "warning"@ ==> d.severity == Severity::Warning
                &&& severity == "note"@ ==> d.severity == Severity::Note
                &&& severity != "warning"@ && severity != "note"@ ==> d.severity
                    == Severity::Error
            }
            &&& json::lacks(v, "severity"@) ==> d.severity == Severity::Error
            &&& json::names(v, "message"@, JsonView::Str(message)) ==> d.message == message
            &&& json::lacks(v, "message"@) ==> d.message == Seq::<char>::empty()
            &&& json::names(v, "code"@, code) && json::names(
                code,
                "prefix"@,
                JsonView::Str(prefix),
            ) && json::names(code, "number"@, JsonView::Number { uint, text: number })
                ==> d.code == Some(prefix + number)
            &&& json::lacks(v, "code"@) ==> d.code is None
        }),
{
    let null = JsonView::Null;
    json::law_members_are_found_by_name(v, "severity"@, JsonView::Str(severity));
    json::law_members_are_found_by_name(v, "message"@, JsonView::Str(message));
    json::law_members_are_found_by_name(v, "code"@, code);
    json::law_members_are_found_by_name(code, "prefix"@, JsonView::Str(prefix));
    json::law_members_are_found_by_name(code, "number"@, JsonView::Number { uint, text: number });
    json::law_members_are_found_by_name(null, "prefix"@, null);
    reveal_strlit("warning");
    reveal_strlit("note");
    assert("warning"@.len() != "note"@.len());
}

/// Diagnostics are seen in their order, each as it is.
pub proof fn law_diagnostics_are_seen_as_they_are(ds: Seq<Diagnostic>)
    ensures
        diagnostic_views(ds).len() == ds.len(),
        forall|i: int|
            0 <= i < ds.len() ==> {
                let v = #[trigger] diagnostic_views(ds)[i];
                &&& v.severity == ds[i].severity
                &&& v.source == ds[i].source
                &&& v.message == ds[i].message@
                &&& v.file == text::opt_view(ds[i].file)
                &&& v.span == ds[i].span
                &&& v.code == text::opt_view(ds[i].code)
                &&& v.raw == ds[i].raw
            },
{
}

} // verus!
