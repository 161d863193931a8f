//! Reading the compiler's error output.

use vstd::prelude::*;

use crate::diagnostic;
use crate::diagnostic::{Diagnostic, DiagnosticView, Position, Severity, Source, Span};
use crate::text::{
    chars_of, join, lines, matches_at, parse_unsigned, slice_string, trim_end_at, trimmed,
};
use crate::text;

verus! {

broadcast use vstd::string::group_string_axioms;

// ---------------------------------------------------------------------------
// The grammar of a line
// ---------------------------------------------------------------------------

/// Whether the regular expression `\d` matches a character.
pub uninterp spec fn regex_digit(c: char) -> bool;

/// `regex::Regex::is_match` of the class `\d` on a single character: whether it is a decimal
/// digit of some script. Which characters beyond ASCII are is left to the name.
#[verifier::external_body]
fn is_regex_digit(c: char) -> (r: bool)
    ensures
        r == regex_digit(c),
        (c as u32) < 128 ==> r == ('0' <= c && c <= '9'),
{
    regex::Regex::new(r"^\d$").is_ok_and(|re| re.is_match(c.encode_utf8(&mut [0; 4])))
}

/// A decimal digit of some script.
pub open spec fn digit(c: char) -> bool {
    if (c as u32) < 128 {
        '0' <= c && c <= '9'
    } else {
        regex_digit(c)
    }
}

/// The first position at or after `from` that holds no digit.
pub open spec fn digits_end(t: Seq<char>, from: int) -> int
    decreases t.len() - from,
{
    if from >= t.len() || !digit(t[from]) {
        from
    } else {
        digits_end(t, from + 1)
    }
}

/// An error line, taken apart.
pub struct ErrorLine {
    pub file: Seq<char>,
    pub line: Seq<char>,
    pub column: Seq<char>,
    pub message: Seq<char>,
}

/// The line of which the file name ends at `i`, where ` line <digits> char <digits>: ` follows.
pub open spec fn coordinates_at(t: Seq<char>, i: int) -> Option<ErrorLine> {
    let a = i + " line "@.len();
    let b = digits_end(t, a);
    let c = b + " char "@.len();
    let d = digits_end(t, c);
    if text::occurs_at(t, " line "@, i) && a < b && text::occurs_at(t, " char "@, b) && c < d
        && text::occurs_at(t, ": "@, d) {
        Some(
            ErrorLine {
                file: t.subrange("Exception: "@.len() as int, i),
                line: t.subrange(a, b),
                column: t.subrange(c, d),
                message: t.subrange(d + ": "@.len(), t.len() as int),
            },
        )
    } else {
        None
    }
}

/// The line of which the file name ends at `i` or as soon after it as coordinates follow.
pub open spec fn error_line_from(t: Seq<char>, i: int) -> Option<ErrorLine>
    decreases t.len() - i,
{
    if i >= t.len() {
        None
    } else {
        match coordinates_at(t, i) {
            Some(e) => Some(e),
            None => error_line_from(t, i + 1),
        }
    }
}

/// An error line `Exception: <file> line <digits> char <digits>: <message>`, taken apart. The
/// file name is not empty and as short as it can be, so a message may hold anything.
pub open spec fn error_line(t: Seq<char>) -> Option<ErrorLine> {
    if text::occurs_at(t, "Exception: "@, 0) {
        error_line_from(t, "Exception: "@.len() as int + 1)
    } else {
        None
    }
}

/// The number in a coordinate; one that is no 32-bit number counts as the first.
pub open spec fn coordinate(t: Seq<char>) -> u32 {
    match text::parsed_unsigned(t, u32::MAX as nat) {
        Some(n) => n as u32,
        None => 1,
    }
}

/// The diagnostic of an error line.
pub open spec fn line_diagnostic(e: ErrorLine) -> DiagnosticView {
    DiagnosticView {
        severity: Severity::Error,
        source: Source::Compactc,
        message: e.message,
        file: Some(e.file),
        span: Some(
            Span {
                start: Position {
                    offset: None,
                    line: coordinate(e.line),
                    column: coordinate(e.column),
                },
                end: None,
            },
        ),
        code: None,
        raw: false,
    }
}

/// The diagnostics of the error lines among the first `n` lines.
pub open spec fn line_diagnostics(ls: Seq<Seq<char>>, n: int) -> Seq<DiagnosticView>
    decreases n,
{
    if n <= 0 {
        seq![]
    } else {
        let rest = line_diagnostics(ls, n - 1);
        match error_line(text::trim_end(ls[n - 1])) {
            Some(e) => rest.push(line_diagnostic(e)),
            None => rest,
        }
    }
}

/// Those of the first `n` lines that are neither blank nor error lines.
pub open spec fn other_lines(ls: Seq<Seq<char>>, n: int) -> Seq<Seq<char>>
    decreases n,
{
    if n <= 0 {
        seq![]
    } else {
        let rest = other_lines(ls, n - 1);
        if error_line(text::trim_end(ls[n - 1])) is None && text::trim(ls[n - 1]).len() > 0 {
            rest.push(ls[n - 1])
        } else {
            rest
        }
    }
}

/// The diagnostic of output that is no error line.
pub open spec fn raw_diagnostic(message: Seq<char>) -> DiagnosticView {
    DiagnosticView {
        severity: Severity::Error,
        source: Source::Compactc,
        message,
        file: None,
        span: None,
        code: None,
        raw: true,
    }
}

/// The diagnostics of the compiler's output: one for each error line, and one for what else it
/// holds.
pub open spec fn output_diagnostics(t: Seq<char>) -> Seq<DiagnosticView> {
    let ls = text::lines_of(t);
    let found = line_diagnostics(ls, ls.len() as int);
    let other = other_lines(ls, ls.len() as int);
    if found.len() == 0 {
        if text::trim(t).len() > 0 {
            seq![raw_diagnostic(text::trim(t))]
        } else {
            found
        }
    } else if other.len() > 0 {
        found.push(raw_diagnostic(text::joined(other, "\n"@)))
    } else {
        found
    }
}

// ---------------------------------------------------------------------------
// Reading
// ---------------------------------------------------------------------------

fn is_digit(c: char) -> (r: bool)
    ensures
        r == digit(c),
{
    if (c as u32) < 128 {
        '0' <= c && c <= '9'
    } else {
        is_regex_digit(c)
    }
}

fn find_digits_end(cs: &Vec<char>, from: usize) -> (r: usize)
    requires
        from <= cs.len(),
    ensures
        r == digits_end(cs@, from as int),
        from <= r <= cs.len(),
{
    let mut i: usize = from;
    while i < cs.len() && is_digit(cs[i])
        invariant
            from <= i <= cs.len(),
            digits_end(cs@, i as int) == digits_end(cs@, from as int),
        decreases cs.len() - i,
    {
        i = i + 1;
    }
    i
}

fn read_coordinate(cs: &Vec<char>, lo: usize, hi: usize) -> (r: u32)
    requires
        lo <= hi <= cs.len(),
    ensures
        r == coordinate(cs@.subrange(lo as int, hi as int)),
{
    match parse_unsigned(slice_string(cs, lo, hi).as_str(), u32::MAX as u64) {
        Some(n) => n as u32,
        None => 1,
    }
}

/// The diagnostic of the line of which the file name ends at `i`.
fn read_at(cs: &Vec<char>, i: usize) -> (r: Option<Diagnostic>)
    requires
        "Exception: "@.len() <= i <= cs.len(),
    ensures
        match coordinates_at(cs@, i as int) {
            Some(e) => r matches Some(d) && d@ == line_diagnostic(e),
            None => r is None,
        },
{
    proof {
        reveal_strlit(" line ");
        reveal_strlit(" char ");
        reveal_strlit(": ");
        reveal_strlit("Exception: ");
    }
    if !matches_at(cs, i, &chars_of(" line ")) {
        return None;
    }
    let a: usize = i + 6;
    let b: usize = find_digits_end(cs, a);
    if a == b || !matches_at(cs, b, &chars_of(" char ")) {
        return None;
    }
    let c: usize = b + 6;
    let d: usize = find_digits_end(cs, c);
    if c == d || !matches_at(cs, d, &chars_of(": ")) {
        return None;
    }
    Some(
        Diagnostic {
            severity: Severity::Error,
            source: Source::Compactc,
            message: slice_string(cs, d + 2, cs.len()),
            file: Some(slice_string(cs, 11, i)),
            span: Some(
                Span {
                    start: Position {
                        offset: None,
                        line: read_coordinate(cs, a, b),
                        column: read_coordinate(cs, c, d),
                    },
                    end: None,
                },
            ),
            code: None,
            raw: false,
        },
    )
}

/// The diagnostic of a line, where it is an error line.
fn read_line(cs: &Vec<char>) -> (r: Option<Diagnostic>)
    ensures
        match error_line(cs@) {
            Some(e) => r matches Some(d) && d@ == line_diagnostic(e),
            None => r is None,
        },
{
    proof {
        reveal_strlit("Exception: ");
    }
    if !matches_at(cs, 0, &chars_of("Exception: ")) {
        return None;
    }
    let mut i: usize = 11;
    if i < cs.len() {
        i = i + 1;
    } else {
        return None;
    }
    while i < cs.len()
        invariant
            12 <= i <= cs.len(),
            "Exception: "@.len() == 11,
            error_line(cs@) == error_line_from(cs@, i as int),
        decreases cs.len() - i,
    {
        match read_at(cs, i) {
            Some(d) => {
                return Some(d);
            },
            None => {},
        }
        i = i + 1;
    }
    None
}

/// A diagnostic that holds what is no error line.
fn raw(message: String) -> (r: Diagnostic)
    ensures
        r@ == raw_diagnostic(message@),
{
    Diagnostic {
        severity: Severity::Error,
        source: Source::Compactc,
        message,
        file: None,
        span: None,
        code: None,
        raw: true,
    }
}

/// The diagnostics in the compiler's output. It stops at its first error, so there is at most
/// one error line. What is no error line is returned as it is, so that nothing is dropped: all
/// of the output where there is no error line, else the other lines behind it.
pub fn parse_compactc_output(text: &str) -> (r: Vec<Diagnostic>)
    ensures
        diagnostic::diagnostic_views(r@) == output_diagnostics(text@),
{
    let ls = lines(text);
    let ghost all = text::lines_of(text@);
    let mut out: Vec<Diagnostic> = Vec::new();
    let mut other: Vec<String> = Vec::new();
    let mut i: usize = 0;
    assert(diagnostic::diagnostic_views(out@) =~= Seq::<DiagnosticView>::empty());
    assert(text::views(other@) =~= Seq::<Seq<char>>::empty());
    while i < ls.len()
        invariant
            i <= ls.len(),
            all == text::views(ls@),
            diagnostic::diagnostic_views(out@) == line_diagnostics(all, i as int),
            text::views(other@) == other_lines(all, i as int),
        decreases ls.len() - i,
    {
        let whole = chars_of(ls[i].as_str());
        let end: usize = trim_end_at(&whole, 0, whole.len());
        let cs = chars_of(slice_string(&whole, 0, end).as_str());
        proof {
            assert(whole@.subrange(0, whole@.len() as int) =~= whole@);
            assert(cs@ == text::trim_end(all[i as int]));
        }
        match read_line(&cs) {
            Some(d) => {
                let ghost before = out@;
                out.push(d);
                assert(diagnostic::diagnostic_views(out@) =~= diagnostic::diagnostic_views(
                    before,
                ).push(d@));
            },
            None => {
                if !trimmed(ls[i].as_str()).as_str().is_empty() {
                    let ghost before = other@;
                    other.push(ls[i].clone());
                    proof {
                        text::lemma_views_push(before, other@.last());
                    }
                }
            },
        }
        i = i + 1;
    }
    let ghost before = out@;
    if out.len() == 0 {
        let message = trimmed(text);
        if !message.as_str().is_empty() {
            out.push(raw(message));
            assert(diagnostic::diagnostic_views(out@) =~= output_diagnostics(text@));
        }
    } else if other.len() > 0 {
        out.push(raw(join(&other, "\n")));
        assert(diagnostic::diagnostic_views(out@) =~= diagnostic::diagnostic_views(before).push(
            out@.last()@,
        ));
    }
    out
}

// ---------------------------------------------------------------------------
// Laws
// ---------------------------------------------------------------------------

/// Compiler output is never dropped. There is a diagnostic exactly where there is output other
/// than white space. Every line that is not blank is in one: an error line in its own, taken
/// apart, and any other in a raw one, as it is or with all of the output.
pub proof fn law_output_is_never_dropped(t: Seq<char>)
    ensures
        output_diagnostics(t).len() == 0 <==> text::trim(t).len() == 0,
        forall|i: int|
            0 <= i < output_diagnostics(t).len() ==> {
                let d = #[trigger] output_diagnostics(t)[i];
                &&& d.source == Source::Compactc
                &&& d.severity == Severity::Error
                &&& !d.raw ==> d.span is Some && d.file is Some
            },
        forall|i: int|
            0 <= i < text::lines_of(t).len() && text::trim(#[trigger] text::lines_of(t)[i]).len()
                > 0 ==> match error_line(text::trim_end(text::lines_of(t)[i])) {
                Some(e) => output_diagnostics(t).contains(line_diagnostic(e)),
                None => {
                    let d = output_diagnostics(t).last();
                    d.raw && (d.message == text::trim(t) || text::occurs(
                        d.message,
                        text::lines_of(t)[i],
                    ))
                },
            },
{
    let ls = text::lines_of(t);
    let n = ls.len() as int;
    lemma_structured(ls, n);
    if text::trim(t).len() == 0 {
        lemma_blank(t);
        lemma_blank_lines(t, 0);
        lemma_blank_gives_nothing(ls, n);
    }
    let found = line_diagnostics(ls, n);
    let other = other_lines(ls, n);
    assert forall|i: int| 0 <= i < ls.len() && text::trim(#[trigger] ls[i]).len()
        > 0 implies match error_line(text::trim_end(ls[i])) {
        Some(e) => output_diagnostics(t).contains(line_diagnostic(e)),
        None => {
            let d = output_diagnostics(t).last();
            d.raw && (d.message == text::trim(t) || text::occurs(d.message, ls[i]))
        },
    } by {
        lemma_line_is_kept(ls, n, i);
        match error_line(text::trim_end(ls[i])) {
            Some(e) => {
                let k = choose|k: int|
                    0 <= k < found.len() && found[k] == line_diagnostic(e);
                assert(output_diagnostics(t)[k] == line_diagnostic(e));
            },
            None => {
                let k = choose|k: int| 0 <= k < other.len() && other[k] == ls[i];
                lemma_joined_holds(other, "\n"@, k);
                if found.len() == 0 && text::trim(t).len() == 0 {
                    assert(blank(ls[i]));
                    lemma_blank_trims(ls[i]);
                }
            },
        }
    }
}

/// A line is among those its kind is collected in.
proof fn lemma_line_is_kept(ls: Seq<Seq<char>>, n: int, i: int)
    requires
        0 <= i < n <= ls.len(),
        text::trim(ls[i]).len() > 0,
    ensures
        match error_line(text::trim_end(ls[i])) {
            Some(e) => line_diagnostics(ls, n).contains(line_diagnostic(e)),
            None => other_lines(ls, n).contains(ls[i]),
        },
    decreases n,
{
    let found = line_diagnostics(ls, n);
    let other = other_lines(ls, n);
    if i < n - 1 {
        lemma_line_is_kept(ls, n - 1, i);
        match error_line(text::trim_end(ls[i])) {
            Some(e) => {
                let before = line_diagnostics(ls, n - 1);
                let k = choose|k: int| 0 <= k < before.len() && before[k] == line_diagnostic(e);
                assert(found[k] == line_diagnostic(e));
            },
            None => {
                let before = other_lines(ls, n - 1);
                let k = choose|k: int| 0 <= k < before.len() && before[k] == ls[i];
                assert(other[k] == ls[i]);
            },
        }
    } else {
        match error_line(text::trim_end(ls[i])) {
            Some(e) => {
                assert(found[found.len() - 1] == line_diagnostic(e));
            },
            None => {
                assert(other[other.len() - 1] == ls[i]);
            },
        }
    }
}

/// Texts put after one another each occur in the whole.
proof fn lemma_joined_holds(parts: Seq<Seq<char>>, sep: Seq<char>, k: int)
    requires
        0 <= k < parts.len(),
    ensures
        text::occurs(text::joined(parts, sep), parts[k]),
    decreases parts.len(),
{
    let all = text::joined(parts, sep);
    if parts.len() == 1 {
        assert(all.subrange(0, parts[0].len() as int) =~= parts[0]);
        assert(text::occurs_at(all, parts[k], 0));
    } else if k == parts.len() - 1 {
        let at: int = all.len() - parts[k].len();
        assert(all.subrange(at, at + parts[k].len()) =~= parts[k]);
        assert(text::occurs_at(all, parts[k], at));
    } else {
        let before = text::joined(parts.drop_last(), sep);
        lemma_joined_holds(parts.drop_last(), sep, k);
        let at = choose|at: int| text::occurs_at(before, parts[k], at);
        assert(all.subrange(at, at + parts[k].len()) =~= before.subrange(at, at + parts[k].len()));
        assert(text::occurs_at(all, parts[k], at));
    }
}

proof fn lemma_blank_trims(t: Seq<char>)
    requires
        blank(t),
    ensures
        text::trim(t).len() == 0,
    decreases t.len(),
{
    if t.len() > 0 {
        assert(text::white_space(t[t.len() - 1]));
        assert(blank(t.drop_last())) by {
            assert forall|i: int| 0 <= i < t.drop_last().len() implies text::white_space(
                #[trigger] t.drop_last()[i],
            ) by {
                assert(t.drop_last()[i] == t[i]);
            }
        }
        lemma_blank_trims(t.drop_last());
    }
}

proof fn lemma_structured(ls: Seq<Seq<char>>, n: int)
    ensures
        forall|i: int|
            0 <= i < line_diagnostics(ls, n).len() ==> {
                let d = #[trigger] line_diagnostics(ls, n)[i];
                d.source == Source::Compactc && d.severity == Severity::Error && !d.raw
                    && d.span is Some && d.file is Some
            },
    decreases n,
{
    if n > 0 {
        lemma_structured(ls, n - 1);
    }
}

spec fn blank(t: Seq<char>) -> bool {
    forall|i: int| 0 <= i < t.len() ==> text::white_space(#[trigger] t[i])
}

proof fn lemma_blank_end(t: Seq<char>)
    requires
        blank(text::trim_end(t)),
    ensures
        blank(t),
    decreases t.len(),
{
    if t.len() > 0 && text::white_space(t.last()) {
        lemma_blank_end(t.drop_last());
        assert forall|i: int| 0 <= i < t.len() implies text::white_space(#[trigger] t[i]) by {
            if i < t.len() - 1 {
                assert(t.drop_last()[i] == t[i]);
            }
        }
    }
}

proof fn lemma_blank_start(t: Seq<char>)
    requires
        text::trim_start(t).len() == 0,
    ensures
        blank(t),
    decreases t.len(),
{
    if t.len() > 0 {
        lemma_blank_start(t.drop_first());
        assert forall|i: int| 0 <= i < t.len() implies text::white_space(#[trigger] t[i]) by {
            if i > 0 {
                assert(t.drop_first()[i - 1] == t[i]);
            }
        }
    }
}

proof fn lemma_blank(t: Seq<char>)
    requires
        text::trim(t).len() == 0,
    ensures
        blank(t),
{
    lemma_blank_start(text::trim_end(t));
    lemma_blank_end(t);
}

proof fn lemma_blank_lines(t: Seq<char>, from: int)
    requires
        blank(t),
        0 <= from,
    ensures
        forall|i: int|
            0 <= i < text::lines_from(t, from).len() ==> blank(
                #[trigger] text::lines_from(t, from)[i],
            ),
    decreases t.len() - from,
{
    if from < t.len() {
        text::lemma_run_end(t, from, '\n');
        let e = text::run_end(t, from, '\n');
        let first = t.subrange(from, e);
        assert(blank(first)) by {
            assert forall|i: int| 0 <= i < first.len() implies text::white_space(
                #[trigger] first[i],
            ) by {
                assert(first[i] == t[from + i]);
            }
        }
        assert(blank(text::strip_cr(first))) by {
            assert forall|i: int| 0 <= i < text::strip_cr(first).len() implies text::white_space(
                #[trigger] text::strip_cr(first)[i],
            ) by {
                assert(text::strip_cr(first)[i] == first[i]);
            }
        }
        if e < t.len() {
            lemma_blank_lines(t, e + 1);
            let rest = text::lines_from(t, e + 1);
            assert forall|i: int| 0 <= i < text::lines_from(t, from).len() implies blank(
                #[trigger] text::lines_from(t, from)[i],
            ) by {
                if i > 0 {
                    assert(text::lines_from(t, from)[i] == rest[i - 1]);
                }
            }
        }
    }
}

proof fn lemma_trimmed_prefix(t: Seq<char>)
    ensures
        text::trim_end(t).len() <= t.len(),
        forall|i: int| 0 <= i < text::trim_end(t).len() ==> text::trim_end(t)[i] == t[i],
    decreases t.len(),
{
    if t.len() > 0 && text::white_space(t.last()) {
        lemma_trimmed_prefix(t.drop_last());
        assert forall|i: int| 0 <= i < text::trim_end(t).len() implies text::trim_end(t)[i]
            == t[i] by {
            assert(text::trim_end(t.drop_last())[i] == t.drop_last()[i]);
        }
    }
}

proof fn lemma_blank_gives_nothing(ls: Seq<Seq<char>>, n: int)
    requires
        n <= ls.len(),
        forall|i: int| 0 <= i < ls.len() ==> blank(#[trigger] ls[i]),
    ensures
        line_diagnostics(ls, n).len() == 0,
    decreases n,
{
    if n > 0 {
        lemma_blank_gives_nothing(ls, n - 1);
        let t = text::trim_end(ls[n - 1]);
        lemma_trimmed_prefix(ls[n - 1]);
        reveal_strlit("Exception: ");
        if text::occurs_at(t, "Exception: "@, 0) {
            assert(t.subrange(0, 11)[0] == 'E');
            assert(t[0] == 'E');
            assert(text::white_space(ls[n - 1][0]));
        }
    }
}

/// Whether a text is made of digits, at least one.
pub open spec fn digits(x: Seq<char>) -> bool {
    x.len() > 0 && forall|i: int| 0 <= i < x.len() ==> digit(#[trigger] x[i])
}

/// Whether ` line <digits> char <digits>: ` stands in `t` behind at least one character.
pub open spec fn holds_coordinates(t: Seq<char>) -> bool {
    exists|i: int, x: Seq<char>, y: Seq<char>|
        0 < i && digits(x) && digits(y) && #[trigger] text::occurs_at(
            t,
            " line "@ + x + " char "@ + y + ": "@,
            i,
        )
}

/// What the compiler writes for an error at a line and a column.
pub open spec fn written_error(
    file: Seq<char>,
    line: nat,
    column: nat,
    message: Seq<char>,
) -> Seq<char> {
    "Exception: "@ + file + " line "@ + text::dec(line) + " char "@ + text::dec(column) + ": "@
        + message
}

/// An error is located where the compiler says it is. Whatever the file, without coordinates in
/// its name, the message, without a line end, and the two numbers, what the compiler writes for
/// it comes out as one diagnostic and no other: of that file and with that message, and its span
/// starts at that line and that column.
pub proof fn law_errors_are_located(
    file: Seq<char>,
    line: u32,
    column: u32,
    message: Seq<char>,
    end: Seq<char>,
)
    requires
        file.len() > 0,
        !file.contains('\n'),
        !holds_coordinates(file + " "@),
        message.len() > 0,
        !message.contains('\n'),
        !text::white_space(message.last()),
        end == Seq::<char>::empty() || end == "\n"@ || end == "\r\n"@,
    ensures
        output_diagnostics(written_error(file, line as nat, column as nat, message) + end) == seq![
            DiagnosticView {
                severity: Severity::Error,
                source: Source::Compactc,
                message,
                file: Some(file),
                span: Some(
                    Span { start: Position { offset: None, line, column }, end: None },
                ),
                code: None,
                raw: false,
            },
        ],
{
    let t = written_error(file, line as nat, column as nat, message);
    let d = lemma_located(file, line, column, message);
    lemma_one_line(t, end, file, line, column, message);
    reveal_with_fuel(line_diagnostics, 2);
    reveal_with_fuel(other_lines, 2);
    assert(text::lines_of(t + end) == seq![t]);
    assert(output_diagnostics(t + end) =~= seq![d]);
}

/// The same holds of a line among others: wherever such a line stands in the output, the error
/// it tells of is among the diagnostics, where it was.
pub proof fn law_errors_among_other_output_are_located(
    t: Seq<char>,
    i: int,
    file: Seq<char>,
    line: u32,
    column: u32,
    message: Seq<char>,
)
    requires
        0 <= i < text::lines_of(t).len(),
        text::lines_of(t)[i] == written_error(file, line as nat, column as nat, message),
        file.len() > 0,
        !holds_coordinates(file + " "@),
        message.len() > 0,
        !text::white_space(message.last()),
    ensures
        exists|k: int|
            0 <= k < output_diagnostics(t).len() && {
                let d = #[trigger] output_diagnostics(t)[k];
                &&& !d.raw
                &&& d.severity == Severity::Error
                &&& d.source == Source::Compactc
                &&& d.message == message
                &&& d.file == Some(file)
                &&& d.code is None
                &&& d.span == Some(
                    Span { start: Position { offset: None, line, column }, end: None },
                )
            },
{
    let d = lemma_located(file, line, column, message);
    let ls = text::lines_of(t);
    reveal_strlit("Exception: ");
    assert(ls[i][0] == 'E');
    lemma_line_is_kept(ls, ls.len() as int, i);
    let found = line_diagnostics(ls, ls.len() as int);
    let k = choose|k: int| 0 <= k < found.len() && found[k] == d;
    assert(output_diagnostics(t)[k] == d);
}

/// Two errors that differ in their line only are told apart by their line only, and likewise for
/// the column.
pub proof fn law_lines_and_columns_are_told_apart(
    file: Seq<char>,
    a: u32,
    b: u32,
    c: u32,
    message: Seq<char>,
)
    requires
        file.len() > 0,
        !file.contains('\n'),
        !holds_coordinates(file + " "@),
        message.len() > 0,
        !message.contains('\n'),
        !text::white_space(message.last()),
    ensures
        ({
            let one = output_diagnostics(written_error(file, a as nat, c as nat, message))[0];
            let two = output_diagnostics(written_error(file, b as nat, c as nat, message))[0];
            let turned = output_diagnostics(written_error(file, c as nat, a as nat, message))[0];
            &&& one.span->Some_0.start.line == a
            &&& two.span->Some_0.start.line == b
            &&& one.span->Some_0.start.column == c == two.span->Some_0.start.column
            &&& turned.span->Some_0.start.line == c
            &&& turned.span->Some_0.start.column == a
        }),
{
    let none = Seq::<char>::empty();
    law_errors_are_located(file, a, c, message, none);
    law_errors_are_located(file, b, c, message, none);
    law_errors_are_located(file, c, a, message, none);
    assert(written_error(file, a as nat, c as nat, message) + none =~= written_error(
        file,
        a as nat,
        c as nat,
        message,
    ));
    assert(written_error(file, b as nat, c as nat, message) + none =~= written_error(
        file,
        b as nat,
        c as nat,
        message,
    ));
    assert(written_error(file, c as nat, a as nat, message) + none =~= written_error(
        file,
        c as nat,
        a as nat,
        message,
    ));
}

/// The line that the compiler writes for an error is read as an error line, with nothing trimmed.
proof fn lemma_located(file: Seq<char>, line: u32, column: u32, message: Seq<char>) -> (d:
    DiagnosticView)
    requires
        file.len() > 0,
        !holds_coordinates(file + " "@),
        message.len() > 0,
        !text::white_space(message.last()),
    ensures
        ({
            let t = written_error(file, line as nat, column as nat, message);
            &&& text::trim_end(t) == t
            &&& error_line(t) matches Some(e) && line_diagnostic(e) == d
        }),
        d == (DiagnosticView {
            severity: Severity::Error,
            source: Source::Compactc,
            message,
            file: Some(file),
            span: Some(Span { start: Position { offset: None, line, column }, end: None }),
            code: None,
            raw: false,
        }),
{
    let l = text::dec(line as nat);
    let c = text::dec(column as nat);
    text::law_decimal_reads_back(line as nat, u32::MAX as nat);
    text::law_decimal_reads_back(column as nat, u32::MAX as nat);
    text::lemma_dec_digits(line as nat);
    text::lemma_dec_digits(column as nat);
    let e = ErrorLine { file, line: l, column: c, message };
    let t = error_text(e);
    assert(t == written_error(file, line as nat, column as nat, message));
    assert(t.last() == message.last());
    reveal_strlit("Exception: ");
    assert forall|i: int|
        "Exception: "@.len() < i < "Exception: "@.len() + e.file.len() implies coordinates_at(
        error_text(e),
        i,
    ) is None by {
        lemma_no_earlier_coordinates(e, i);
    }
    law_error_lines_read_back(e);
    line_diagnostic(e)
}

/// Where the file name holds no coordinates, none are read before its end.
proof fn lemma_no_earlier_coordinates(e: ErrorLine, i: int)
    requires
        text::ascii_digits(e.line),
        text::ascii_digits(e.column),
        !holds_coordinates(e.file + " "@),
        11 < i < 11 + e.file.len(),
    ensures
        coordinates_at(error_text(e), i) is None,
{
    let t = error_text(e);
    let end = 11 + e.file.len() as int;
    if coordinates_at(t, i) is Some {
        reveal_strlit(" line ");
        reveal_strlit(" char ");
        reveal_strlit(": ");
        let a = i + 6;
        let b = digits_end(t, a);
        let c = b + 6;
        let d = digits_end(t, c);
        assert(t.len() > end + 1 && t[end] == ' ' && t[end + 1] == 'l' && t.subrange(11, end)
            =~= e.file) by {
            lemma_behind_the_file(e);
        }
        lemma_coordinates_end(t, i, end);
        lemma_coordinates_stand(t, i, end, e.file);
    }
}

/// Coordinates that are over by `end` stand in the text between, with the space at its end.
proof fn lemma_coordinates_stand(t: Seq<char>, i: int, end: int, file: Seq<char>)
    requires
        11 < i,
        11 <= end < t.len(),
        t[end] == ' ',
        t.subrange(11, end) == file,
        coordinates_at(t, i) is Some,
        digits_end(t, digits_end(t, i + 6) + 6) + 1 <= end,
    ensures
        holds_coordinates(file + " "@),
{
    reveal_strlit(" line ");
    reveal_strlit(" char ");
    reveal_strlit(": ");
    reveal_strlit(" ");
    let a = i + 6;
    let b = digits_end(t, a);
    let c = b + 6;
    let d = digits_end(t, c);
    let x = t.subrange(a, b);
    let y = t.subrange(c, d);
    lemma_digits_before(t, a);
    lemma_digits_before(t, c);
    assert(digits(x)) by {
        assert forall|j: int| 0 <= j < x.len() implies digit(#[trigger] x[j]) by {
            assert(x[j] == t[a + j]);
        }
    }
    assert(digits(y)) by {
        assert forall|j: int| 0 <= j < y.len() implies digit(#[trigger] y[j]) by {
            assert(y[j] == t[c + j]);
        }
    }
    lemma_cut_out(t, i, a, b, c, d);
    let f = file + " "@;
    let g = t.subrange(11, end + 1);
    assert(f =~= g) by {
        assert(g.drop_last() =~= t.subrange(11, end));
        assert(g =~= g.drop_last().push(g.last()));
        assert(f =~= file.push(' '));
    }
    let p = " line "@ + x + " char "@ + y + ": "@;
    assert(t.subrange(i, d + 2) == p);
    assert(g.subrange(i - 11, d + 2 - 11) =~= t.subrange(i, d + 2));
    assert(p.len() == d + 2 - i);
    assert(text::occurs_at(f, p, i - 11));
}

/// The parts of coordinates, put together.
proof fn lemma_cut_out(t: Seq<char>, i: int, a: int, b: int, c: int, d: int)
    requires
        0 <= i <= a <= b <= c <= d,
        d + 2 <= t.len(),
        t.subrange(i, a) == " line "@,
        t.subrange(b, c) == " char "@,
        t.subrange(d, d + 2) == ": "@,
    ensures
        t.subrange(i, d + 2) == " line "@ + t.subrange(a, b) + " char "@ + t.subrange(c, d)
            + ": "@,
{
    let p1 = t.subrange(i, a) + t.subrange(a, b);
    assert(p1 =~= t.subrange(i, b));
    let p2 = p1 + t.subrange(b, c);
    assert(p2 =~= t.subrange(i, c));
    let p3 = p2 + t.subrange(c, d);
    assert(p3 =~= t.subrange(i, d));
    assert(p3 + t.subrange(d, d + 2) =~= t.subrange(i, d + 2));
}

/// What stands behind the file name of an error line.
proof fn lemma_behind_the_file(e: ErrorLine)
    ensures
        ({
            let t = error_text(e);
            let end = 11 + e.file.len() as int;
            &&& t.len() > end + 1
            &&& t[end] == ' '
            &&& t[end + 1] == 'l'
            &&& t.subrange(11, end) == e.file
        }),
{
    reveal_strlit("Exception: ");
    reveal_strlit(" line ");
    let t = error_text(e);
    let end = 11 + e.file.len() as int;
    lemma_parts(
        t,
        "Exception: "@,
        e.file,
        " line "@,
        e.line,
        " char "@,
        e.column,
        ": "@,
        e.message,
    );
    assert(t[end] == t.subrange(end, end + 6)[0]);
    assert(t[end + 1] == t.subrange(end, end + 6)[1]);
}

/// Coordinates that begin before ` l` at `end` are over by then, but for their last space.
proof fn lemma_coordinates_end(t: Seq<char>, i: int, end: int)
    requires
        0 <= i < end,
        end + 1 < t.len(),
        t[end] == ' ',
        t[end + 1] == 'l',
        coordinates_at(t, i) is Some,
    ensures
        digits_end(t, digits_end(t, i + 6) + 6) + 1 <= end,
{
    reveal_strlit(" line ");
    reveal_strlit(" char ");
    reveal_strlit(": ");
    let a = i + 6;
    let b = digits_end(t, a);
    let c = b + 6;
    let d = digits_end(t, c);
    lemma_digits_before(t, a);
    lemma_digits_before(t, c);
    let w = t.subrange(i, a);
    assert(w == " line "@);
    assert(w[1] == t[i + 1] && w[2] == t[i + 2] && w[3] == t[i + 3] && w[4] == t[i + 4] && w[5]
        == t[i + 5]);
    let v = t.subrange(b, c);
    assert(v == " char "@);
    assert(v[0] == t[b] && v[1] == t[b + 1] && v[2] == t[b + 2] && v[3] == t[b + 3] && v[4] == t[b
        + 4] && v[5] == t[b + 5]);
    let u = t.subrange(d, d + 2);
    assert(u == ": "@);
    assert(u[0] == t[d]);
    assert(digit(t[a]));
    assert(digit(t[c]));
    assert(!digit(' ') && !digit('l'));
}

proof fn lemma_digits_before(t: Seq<char>, from: int)
    requires
        0 <= from,
    ensures
        from <= digits_end(t, from),
        from <= t.len() ==> digits_end(t, from) <= t.len(),
        forall|j: int| from <= j < digits_end(t, from) ==> j < t.len() && digit(#[trigger] t[j]),
    decreases t.len() - from,
{
    if from < t.len() && digit(t[from]) {
        lemma_digits_before(t, from + 1);
    }
}

/// A text without a line feed is one line, with or without a line end behind it.
proof fn lemma_one_line(
    t: Seq<char>,
    end: Seq<char>,
    file: Seq<char>,
    line: u32,
    column: u32,
    message: Seq<char>,
)
    requires
        t == written_error(file, line as nat, column as nat, message),
        !file.contains('\n'),
        !message.contains('\n'),
        message.len() > 0,
        !text::white_space(message.last()),
        end == Seq::<char>::empty() || end == "\n"@ || end == "\r\n"@,
    ensures
        text::lines_of(t + end) == seq![t],
{
    reveal_strlit("Exception: ");
    reveal_strlit(" line ");
    reveal_strlit(" char ");
    reveal_strlit(": ");
    reveal_strlit("\n");
    reveal_strlit("\r\n");
    text::lemma_dec_digits(line as nat);
    text::lemma_dec_digits(column as nat);
    let l = text::dec(line as nat);
    let c = text::dec(column as nat);
    assert forall|i: int| 0 <= i < t.len() implies #[trigger] t[i] != '\n' by {
        let p1: int = 11;
        let p2 = p1 + file.len();
        let p3 = p2 + 6;
        let p4 = p3 + l.len();
        let p5 = p4 + 6;
        let p6 = p5 + c.len();
        let p7 = p6 + 2;
        if i < p1 {
            assert(t[i] == "Exception: "@[i]);
        } else if i < p2 {
            assert(t[i] == file[i - p1]);
        } else if i < p3 {
            assert(t[i] == " line "@[i - p2]);
        } else if i < p4 {
            assert(t[i] == l[i - p3]);
        } else if i < p5 {
            assert(t[i] == " char "@[i - p4]);
        } else if i < p6 {
            assert(t[i] == c[i - p5]);
        } else if i < p7 {
            assert(t[i] == ": "@[i - p6]);
        } else {
            assert(t[i] == message[i - p7]);
        }
    }
    assert(t.last() == message.last());
    text::law_one_line(t, end);
}

/// The text of an error line.
pub open spec fn error_text(e: ErrorLine) -> Seq<char> {
    "Exception: "@ + e.file + " line "@ + e.line + " char "@ + e.column + ": "@ + e.message
}

/// What the compiler writes for an error is read back as it was: the file, the coordinates and
/// the message, which may hold anything. The file name must not itself hold coordinates.
pub proof fn law_error_lines_read_back(e: ErrorLine)
    requires
        e.file.len() > 0,
        text::ascii_digits(e.line),
        text::ascii_digits(e.column),
        forall|i: int|
            "Exception: "@.len() < i < "Exception: "@.len() + e.file.len() ==> coordinates_at(
                error_text(e),
                i,
            ) is None,
    ensures
        error_line(error_text(e)) == Some(e),
{
    reveal_strlit("Exception: ");
    lemma_error_text(e);
    lemma_skips_to(error_text(e), 12, 11 + e.file.len() as int);
}

proof fn lemma_error_text(e: ErrorLine)
    requires
        text::ascii_digits(e.line),
        text::ascii_digits(e.column),
    ensures
        text::occurs_at(error_text(e), "Exception: "@, 0),
        coordinates_at(error_text(e), "Exception: "@.len() as int + e.file.len()) == Some(e),
        "Exception: "@.len() + e.file.len() < error_text(e).len(),
{
    reveal_strlit("Exception: ");
    reveal_strlit(" line ");
    reveal_strlit(" char ");
    reveal_strlit(": ");
    let t = error_text(e);
    let i: int = 11 + e.file.len() as int;
    let a: int = i + 6;
    let b: int = a + e.line.len();
    let c: int = b + 6;
    let d: int = c + e.column.len();
    lemma_parts(
        t,
        "Exception: "@,
        e.file,
        " line "@,
        e.line,
        " char "@,
        e.column,
        ": "@,
        e.message,
    );
    assert(t[b] == t.subrange(b, c)[0]);
    assert(t[d] == t.subrange(d, d + 2)[0]);
    lemma_digits_run(t, a, b);
    lemma_digits_run(t, c, d);
}

/// Eight texts in a row can be cut out of the whole again.
proof fn lemma_parts(
    t: Seq<char>,
    a: Seq<char>,
    b: Seq<char>,
    c: Seq<char>,
    d: Seq<char>,
    e: Seq<char>,
    f: Seq<char>,
    g: Seq<char>,
    h: Seq<char>,
)
    requires
        t == a + b + c + d + e + f + g + h,
    ensures
        ({
            let p1 = a.len() as int;
            let p2 = p1 + b.len();
            let p3 = p2 + c.len();
            let p4 = p3 + d.len();
            let p5 = p4 + e.len();
            let p6 = p5 + f.len();
            let p7 = p6 + g.len();
            &&& t.len() == p7 + h.len()
            &&& t.subrange(0, p1) == a
            &&& t.subrange(p1, p2) == b
            &&& t.subrange(p2, p3) == c
            &&& t.subrange(p3, p4) == d
            &&& t.subrange(p4, p5) == e
            &&& t.subrange(p5, p6) == f
            &&& t.subrange(p6, p7) == g
            &&& t.subrange(p7, t.len() as int) == h
        }),
{
    let r7 = g + h;
    let r6 = f + r7;
    let r5 = e + r6;
    let r4 = d + r5;
    let r3 = c + r4;
    let r2 = b + r3;
    lemma_regroup(a + b + c + d + e + f, g, h);
    lemma_regroup(a + b + c + d + e, f, r7);
    lemma_regroup(a + b + c + d, e, r6);
    lemma_regroup(a + b + c, d, r5);
    lemma_regroup(a + b, c, r4);
    lemma_regroup(a, b, r3);
    assert(t.subrange(0, t.len() as int) =~= t);
    let p1 = a.len() as int;
    let p2 = p1 + b.len();
    let p3 = p2 + c.len();
    let p4 = p3 + d.len();
    let p5 = p4 + e.len();
    let p6 = p5 + f.len();
    lemma_split(t, a, r2, 0);
    lemma_split(t, b, r3, p1);
    lemma_split(t, c, r4, p2);
    lemma_split(t, d, r5, p3);
    lemma_split(t, e, r6, p4);
    lemma_split(t, f, r7, p5);
    lemma_split(t, g, h, p6);
}

proof fn lemma_regroup(a: Seq<char>, b: Seq<char>, c: Seq<char>)
    ensures
        (a + b) + c == a + (b + c),
{
    assert((a + b) + c =~= a + (b + c));
}

proof fn lemma_split(t: Seq<char>, head: Seq<char>, tail: Seq<char>, at: int)
    requires
        0 <= at <= t.len(),
        t.subrange(at, t.len() as int) == head + tail,
    ensures
        at + head.len() + tail.len() == t.len(),
        t.subrange(at, at + head.len()) == head,
        t.subrange(at + head.len(), t.len() as int) == tail,
{
    let whole = t.subrange(at, t.len() as int);
    assert(whole.len() == head.len() + tail.len());
    assert forall|i: int| 0 <= i < head.len() implies t[at + i] == head[i] by {
        assert(whole[i] == t[at + i]);
    }
    assert forall|i: int| 0 <= i < tail.len() implies t[at + head.len() + i] == tail[i] by {
        assert(whole[head.len() + i] == t[at + head.len() + i]);
    }
    assert(t.subrange(at, at + head.len()) =~= head);
    assert(t.subrange(at + head.len(), t.len() as int) =~= tail);
}

proof fn lemma_digits_run(t: Seq<char>, from: int, to: int)
    requires
        0 <= from <= to < t.len(),
        forall|i: int| 0 <= i < to - from ==> '0' <= #[trigger] t.subrange(from, to)[i] <= '9',
        !digit(t[to]),
    ensures
        digits_end(t, from) == to,
    decreases to - from,
{
    if from < to {
        assert(t.subrange(from, to)[0] == t[from]);
        assert forall|i: int| 0 <= i < to - (from + 1) implies '0' <= #[trigger] t.subrange(
            from + 1,
            to,
        )[i] <= '9' by {
            assert(t.subrange(from + 1, to)[i] == t.subrange(from, to)[i + 1]);
        }
        lemma_digits_run(t, from + 1, to);
    }
}

proof fn lemma_skips_to(t: Seq<char>, from: int, to: int)
    requires
        from <= to < t.len(),
        forall|i: int| from <= i < to ==> coordinates_at(t, i) is None,
    ensures
        error_line_from(t, from) == error_line_from(t, to),
    decreases to - from,
{
    if from < to {
        lemma_skips_to(t, from + 1, to);
    }
}

/// An error that the compiler tells of.
pub struct ToldError {
    pub file: Seq<char>,
    pub line: u32,
    pub column: u32,
    pub message: Seq<char>,
}

/// What the compiler writes for each of these errors.
pub open spec fn told(es: Seq<ToldError>) -> Seq<Seq<char>> {
    Seq::new(
        es.len(),
        |i: int|
            written_error(es[i].file, es[i].line as nat, es[i].column as nat, es[i].message),
    )
}

/// Whether an error is told on one line, with a file name that could not be taken for coordinates.
pub open spec fn told_plainly(e: ToldError) -> bool {
    &&& e.file.len() > 0
    &&& !e.file.contains('\n')
    &&& !holds_coordinates(e.file + " "@)
    &&& e.message.len() > 0
    &&& !e.message.contains('\n')
    &&& !text::white_space(e.message.last())
}

/// The diagnostics that tell each of these errors, where it was.
pub open spec fn located(es: Seq<ToldError>) -> Seq<DiagnosticView> {
    Seq::new(
        es.len(),
        |i: int|
            DiagnosticView {
                severity: Severity::Error,
                source: Source::Compactc,
                message: es[i].message,
                file: Some(es[i].file),
                span: Some(
                    Span {
                        start: Position { offset: None, line: es[i].line, column: es[i].column },
                        end: None,
                    },
                ),
                code: None,
                raw: false,
            },
    )
}

/// Whether a line is a remark: it says something, and does not start as an error does.
pub open spec fn remark(l: Seq<char>) -> bool {
    &&& !text::all_white(l)
    &&& !l.contains('\n')
    &&& l.last() != '\r'
    &&& !"Exception: "@.is_prefix_of(l)
}

/// However many errors the compiler tells of, each is a diagnostic of its own, in the order in which
/// they were told. What else it says, before them or after, is one diagnostic behind them, with the
/// lines in their order; where it says nothing else, there is none.
pub proof fn law_errors_are_told_in_order(
    before: Seq<Seq<char>>,
    es: Seq<ToldError>,
    after: Seq<Seq<char>>,
)
    requires
        es.len() > 0,
        forall|i: int| 0 <= i < es.len() ==> told_plainly(#[trigger] es[i]),
        forall|i: int| 0 <= i < before.len() ==> remark(#[trigger] before[i]),
        forall|i: int| 0 <= i < after.len() ==> remark(#[trigger] after[i]),
    ensures
        ({
            let found = output_diagnostics(text::line_by_line(before + told(es) + after));
            &&& before.len() + after.len() == 0 ==> found == located(es)
            &&& before.len() + after.len() > 0 ==> found == located(es).push(
                DiagnosticView {
                    severity: Severity::Error,
                    source: Source::Compactc,
                    message: text::joined(before + after, "\n"@),
                    file: None,
                    span: None,
                    code: None,
                    raw: true,
                },
            )
        }),
{
    let ls = before + told(es) + after;
    assert forall|i: int| 0 <= i < ls.len() implies !(#[trigger] ls[i]).contains('\n') && (
    ls[i].len() > 0 ==> ls[i].last() != '\r') by {
        lemma_one_of(before, es, after, i);
    }
    text::law_lines_are_read_back(ls);
    lemma_told_in_order(before, es, after, ls.len() as int);
    assert(located(es).take(es.len() as int) =~= located(es));
    assert((before + after).take((before + after).len() as int) =~= before + after);
}

proof fn lemma_one_of(before: Seq<Seq<char>>, es: Seq<ToldError>, after: Seq<Seq<char>>, i: int)
    requires
        0 <= i < before.len() + es.len() + after.len(),
        forall|i: int| 0 <= i < es.len() ==> told_plainly(#[trigger] es[i]),
        forall|i: int| 0 <= i < before.len() ==> remark(#[trigger] before[i]),
        forall|i: int| 0 <= i < after.len() ==> remark(#[trigger] after[i]),
    ensures
        ({
            let l = (before + told(es) + after)[i];
            let k = i - before.len();
            &&& !l.contains('\n')
            &&& l.len() > 0 ==> l.last() != '\r'
            &&& 0 <= k < es.len() ==> (error_line(text::trim_end(l)) matches Some(e)
                && line_diagnostic(e) == located(es)[k])
            &&& k < 0 || k >= es.len() ==> error_line(text::trim_end(l)) is None && text::trim(
                l,
            ).len() > 0
        }),
{
    let l = (before + told(es) + after)[i];
    let k = i - before.len();
    if 0 <= k < es.len() {
        let e = es[k];
        assert(told_plainly(e));
        let d = lemma_located(e.file, e.line, e.column, e.message);
        lemma_no_line_end(e.file, e.line, e.column, e.message);
        assert(l == told(es)[k]);
    } else {
        if k < 0 {
            assert(l == before[i]);
        } else {
            assert(l == after[k - es.len()]);
        }
        assert(remark(l));
        text::law_trimming_takes_white_space_only(l);
        text::law_trimming_the_end(l);
        let t = text::trim_end(l);
        if text::occurs_at(t, "Exception: "@, 0) {
            let n = "Exception: "@.len() as int;
            assert("Exception: "@ =~= l.take(n)) by {
                assert(t.subrange(0, n) =~= l.take(n));
            }
        }
    }
}

proof fn lemma_no_line_end(file: Seq<char>, line: u32, column: u32, message: Seq<char>)
    requires
        !file.contains('\n'),
        message.len() > 0,
        !message.contains('\n'),
        !text::white_space(message.last()),
    ensures
        !written_error(file, line as nat, column as nat, message).contains('\n'),
        written_error(file, line as nat, column as nat, message).last() != '\r',
{
    let t = written_error(file, line as nat, column as nat, message);
    reveal_strlit("Exception: ");
    reveal_strlit(" line ");
    reveal_strlit(" char ");
    reveal_strlit(": ");
    text::lemma_dec_digits(line as nat);
    text::lemma_dec_digits(column as nat);
    let a = "Exception: "@ + file;
    let b = a + " line "@;
    let c = b + text::dec(line as nat);
    let d = c + " char "@;
    let e = d + text::dec(column as nat);
    let f = e + ": "@;
    assert(t == f + message);
    lemma_no_end_in_two("Exception: "@, file);
    lemma_no_end_in_two(a, " line "@);
    lemma_no_end_in_two(b, text::dec(line as nat));
    lemma_no_end_in_two(c, " char "@);
    lemma_no_end_in_two(d, text::dec(column as nat));
    lemma_no_end_in_two(e, ": "@);
    lemma_no_end_in_two(f, message);
    assert(t.last() == message.last());
}

proof fn lemma_no_end_in_two(a: Seq<char>, b: Seq<char>)
    requires
        !a.contains('\n'),
        forall|i: int| 0 <= i < b.len() ==> #[trigger] b[i] != '\n',
    ensures
        !(a + b).contains('\n'),
{
    let t = a + b;
    if t.contains('\n') {
        let k = choose|k: int| 0 <= k < t.len() && t[k] == '\n';
        if k < a.len() {
            assert(a[k] == '\n');
        } else {
            assert(b[k - a.len()] == '\n');
        }
    }
}

proof fn lemma_told_in_order(
    before: Seq<Seq<char>>,
    es: Seq<ToldError>,
    after: Seq<Seq<char>>,
    n: int,
)
    requires
        0 <= n <= before.len() + es.len() + after.len(),
        forall|i: int| 0 <= i < es.len() ==> told_plainly(#[trigger] es[i]),
        forall|i: int| 0 <= i < before.len() ==> remark(#[trigger] before[i]),
        forall|i: int| 0 <= i < after.len() ==> remark(#[trigger] after[i]),
    ensures
        ({
            let ls = before + told(es) + after;
            let m = if n <= before.len() {
                0int
            } else if n <= before.len() + es.len() {
                n - before.len()
            } else {
                es.len() as int
            };
            &&& line_diagnostics(ls, n) == located(es).take(m)
            &&& other_lines(ls, n) == (before + after).take(n - m)
        }),
    decreases n,
{
    let ls = before + told(es) + after;
    if n == 0 {
        assert(located(es).take(0) =~= Seq::<DiagnosticView>::empty());
        assert((before + after).take(0) =~= Seq::<Seq<char>>::empty());
    } else {
        lemma_told_in_order(before, es, after, n - 1);
        lemma_one_of(before, es, after, n - 1);
        let k = n - 1 - before.len();
        if 0 <= k < es.len() {
            assert(located(es).take(k + 1) =~= located(es).take(k).push(located(es)[k]));
        } else {
            let r = if k < 0 {
                n - 1
            } else {
                n - 1 - es.len()
            };
            assert((before + after)[r] == ls[n - 1]);
            assert((before + after).take(r + 1) =~= (before + after).take(r).push(ls[n - 1]));
        }
    }
}

/// Output in which no line starts as an error does is told whole, without the white space around
/// it, as one diagnostic that has no place; white space alone is none.
pub proof fn law_other_output_is_told_whole(t: Seq<char>)
    requires
        forall|i: int|
            0 <= i < text::lines_of(t).len() ==> !"Exception: "@.is_prefix_of(
                #[trigger] text::lines_of(t)[i],
            ),
    ensures
        text::all_white(t) ==> output_diagnostics(t).len() == 0,
        !text::all_white(t) ==> output_diagnostics(t) == seq![
            DiagnosticView {
                severity: Severity::Error,
                source: Source::Compactc,
                message: text::trim(t),
                file: None,
                span: None,
                code: None,
                raw: true,
            },
        ],
{
    text::law_trimming_takes_white_space_only(t);
    lemma_no_errors(text::lines_of(t), text::lines_of(t).len() as int);
}

proof fn lemma_no_errors(ls: Seq<Seq<char>>, n: int)
    requires
        n <= ls.len(),
        forall|i: int| 0 <= i < ls.len() ==> !"Exception: "@.is_prefix_of(#[trigger] ls[i]),
    ensures
        line_diagnostics(ls, n).len() == 0,
    decreases n,
{
    if n > 0 {
        lemma_no_errors(ls, n - 1);
        let l = ls[n - 1];
        let t = text::trim_end(l);
        text::law_trimming_the_end(l);
        if text::occurs_at(t, "Exception: "@, 0) {
            let k = "Exception: "@.len() as int;
            assert("Exception: "@ =~= l.take(k)) by {
                assert(t.subrange(0, k) =~= l.take(k));
            }
        }
    }
}

/// A line or a column that is no number of a source counts as the first.
pub proof fn law_places_out_of_range_are_the_first(e: ErrorLine, n: nat)
    requires
        n > u32::MAX,
    ensures
        e.line == text::dec(n) ==> line_diagnostic(e).span->Some_0.start.line == 1,
        e.column == text::dec(n) ==> line_diagnostic(e).span->Some_0.start.column == 1,
{
    text::law_numbers_over_the_limit_are_not_read(n, u32::MAX as nat);
}

} // verus!
