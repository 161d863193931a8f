//! Text as sequences of characters: access, decimal rendering, white space,
//! lines, fields and joining.

use vstd::prelude::*;

verus! {

broadcast use vstd::string::group_string_axioms;

/// `String::push` of the standard library appends one character to the end of
/// the string.
pub assume_specification[ String::push ](s: &mut String, c: char)
    ensures
        final(s)@ == old(s)@.push(c),
;

/// The texts held by a sequence of strings.
pub open spec fn views(parts: Seq<String>) -> Seq<Seq<char>> {
    Seq::new(parts.len(), |i: int| parts[i]@)
}

/// The text held by an optional string.
pub open spec fn opt_view(s: Option<String>) -> Option<Seq<char>> {
    match s {
        Some(s) => Some(s@),
        None => None,
    }
}

pub proof fn lemma_views_push(parts: Seq<String>, s: String)
    ensures
        views(parts.push(s)) == views(parts).push(s@),
{
    assert(views(parts.push(s)) =~= views(parts).push(s@));
}

/// The length of a text in bytes, as UTF-8.
pub open spec fn byte_len(t: Seq<char>) -> usize {
    vstd::utf8::encode_utf8(t).len() as usize
}

/// The characters of `s`, in order.
pub fn chars_of(s: &str) -> (r: Vec<char>)
    ensures
        r@ == s@,
{
    let mut out: Vec<char> = Vec::new();
    for c in it: s.chars()
        invariant
            out@ == it.seq().take(it.index() as int),
            it.seq() == s@,
    {
        out.push(c);
        proof {
            assert(it.seq().take(it.index() + 1) =~= it.seq().take(it.index() as int).push(c));
        }
    }
    assert(s@.take(s@.len() as int) =~= s@);
    out
}

/// The characters `lo..hi` of `cs` as a string.
pub fn slice_string(cs: &Vec<char>, lo: usize, hi: usize) -> (r: String)
    requires
        lo <= hi <= cs.len(),
    ensures
        r@ == cs@.subrange(lo as int, hi as int),
{
    let mut out = String::new();
    let mut i: usize = lo;
    while i < hi
        invariant
            lo <= i <= hi <= cs.len(),
            out@ == cs@.subrange(lo as int, i as int),
        decreases hi - i,
    {
        out.push(cs[i]);
        proof {
            assert(cs@.subrange(lo as int, i + 1) =~= cs@.subrange(lo as int, i as int).push(
                cs@[i as int],
            ));
        }
        i = i + 1;
    }
    out
}

/// Whether two texts hold the same characters.
pub fn same_text(a: &str, b: &str) -> (r: bool)
    ensures
        r == (a@ == b@),
{
    a.to_owned() == b.to_owned()
}

/// A copy of an optional string.
pub fn clone_opt(a: &Option<String>) -> (r: Option<String>)
    ensures
        opt_view(r) == opt_view(*a),
        r == *a,
{
    match a {
        Some(s) => Some(s.clone()),
        None => None,
    }
}

/// What the standard library's `Debug` rendering of a string is.
pub uninterp spec fn debug_text(t: Seq<char>) -> Seq<char>;

/// Printable ASCII that `Debug` shows as it is.
pub open spec fn shown_plainly(t: Seq<char>) -> bool {
    forall|i: int|
        0 <= i < t.len() ==> 0x20 <= #[trigger] t[i] as int <= 0x7e && t[i] != '"' && t[i] != '\\'
}

/// `<str as Debug>::fmt` of the standard library, through `format!`: the text in
/// double quotes, with the characters escaped that need it. Printable ASCII other
/// than `"` and `\` stands unescaped; what the other characters become is left to
/// the name.
#[verifier::external_body]
pub(crate) fn quoted(s: &str) -> (r: String)
    ensures
        r@ == debug_text(s@),
        shown_plainly(s@) ==> r@ == seq!['"'] + s@ + seq!['"'],
{
    format!("{s:?}")
}

// ---------------------------------------------------------------------------
// Decimal numbers
// ---------------------------------------------------------------------------

/// The character of one decimal digit.
pub open spec fn digit_char(d: int) -> char {
    ('0' as int + d) as char
}

/// A natural number in decimal, without leading zeros.
pub open spec fn dec(n: nat) -> Seq<char>
    decreases n,
{
    if n < 10 {
        seq![digit_char(n as int)]
    } else {
        dec(n / 10).push(digit_char((n % 10) as int))
    }
}

/// An integer in decimal, with a leading `-` when negative.
pub open spec fn dec_int(n: int) -> Seq<char> {
    if n < 0 {
        seq!['-'] + dec((-n) as nat)
    } else {
        dec(n as nat)
    }
}

fn push_decimal(out: &mut String, n: u128)
    ensures
        final(out)@ == old(out)@ + dec(n as nat),
    decreases n,
{
    if n >= 10 {
        push_decimal(out, n / 10);
    }
    let d: u8 = (n % 10) as u8;
    let c: char = (48u8 + d) as char;
    let ghost before = out@;
    out.push(c);
    proof {
        if n >= 10 {
            assert(out@ =~= old(out)@ + dec(n as nat));
        } else {
            assert(before == old(out)@);
            assert(out@ =~= old(out)@ + dec(n as nat));
        }
    }
}

/// `n` in decimal.
pub fn decimal(n: u128) -> (r: String)
    ensures
        r@ == dec(n as nat),
{
    let mut out = String::new();
    push_decimal(&mut out, n);
    assert(out@ =~= dec(n as nat));
    out
}

/// `n` in decimal, with a leading `-` when negative.
pub fn decimal_signed(n: i32) -> (r: String)
    ensures
        r@ == dec_int(n as int),
{
    if n < 0 {
        let mut out = String::new();
        out.push('-');
        let m: i64 = -(n as i64);
        push_decimal(&mut out, m as u128);
        assert(out@ =~= dec_int(n as int));
        out
    } else {
        decimal(n as u128)
    }
}

/// Whether a text is made of ASCII digits, at least one.
pub open spec fn ascii_digits(t: Seq<char>) -> bool {
    t.len() > 0 && forall|i: int| 0 <= i < t.len() ==> '0' <= #[trigger] t[i] <= '9'
}

/// The number that a text of ASCII digits denotes.
pub open spec fn dec_value(t: Seq<char>) -> nat
    decreases t.len(),
{
    if t.len() == 0 {
        0
    } else {
        dec_value(t.drop_last()) * 10 + (t.last() as nat - '0' as nat) as nat
    }
}

/// `t` without a leading `+`.
pub open spec fn unsigned_digits(t: Seq<char>) -> Seq<char> {
    if t.len() > 0 && t[0] == '+' {
        t.drop_first()
    } else {
        t
    }
}

/// The number up to `max` that a text denotes in decimal, with or without a leading `+`.
pub open spec fn parsed_unsigned(t: Seq<char>, max: nat) -> Option<nat> {
    let ds = unsigned_digits(t);
    if ascii_digits(ds) && dec_value(ds) <= max {
        Some(dec_value(ds))
    } else {
        None
    }
}

proof fn lemma_dec_value_grows(t: Seq<char>, n: int)
    requires
        0 <= n <= t.len(),
        forall|i: int| 0 <= i < t.len() ==> '0' <= #[trigger] t[i] <= '9',
    ensures
        dec_value(t.take(n)) <= dec_value(t),
    decreases t.len() - n,
{
    if n == t.len() {
        assert(t.take(n) =~= t);
    } else {
        let more = t.take(n + 1);
        assert(more.drop_last() =~= t.take(n));
        lemma_dec_value_grows(t, n + 1);
    }
}

/// The number up to `max` that `s` denotes in decimal.
pub fn parse_unsigned(s: &str, max: u64) -> (r: Option<u64>)
    ensures
        match r {
            Some(n) => parsed_unsigned(s@, max as nat) == Some(n as nat),
            None => parsed_unsigned(s@, max as nat) is None,
        },
{
    let cs = chars_of(s);
    let lo: usize = if cs.len() > 0 && cs[0] == '+' {
        1
    } else {
        0
    };
    let ghost ds = unsigned_digits(s@);
    proof {
        assert(ds =~= cs@.skip(lo as int));
    }
    if lo == cs.len() {
        assert(ds.len() == 0);
        return None;
    }
    let mut v: u64 = 0;
    let mut i: usize = lo;
    proof {
        assert(ds.take(0) =~= Seq::<char>::empty());
    }
    while i < cs.len()
        invariant
            lo <= i <= cs.len(),
            ds == unsigned_digits(s@),
            ds == cs@.skip(lo as int),
            forall|j: int| 0 <= j < i - lo ==> '0' <= #[trigger] ds[j] <= '9',
            v == dec_value(ds.take(i - lo)),
            v <= max,
        decreases cs.len() - i,
    {
        let c: char = cs[i];
        assert(ds[i - lo] == c);
        if c < '0' || c > '9' {
            return None;
        }
        let d: u64 = (c as u32 - '0' as u32) as u64;
        let wide: u128 = v as u128 * 10 + d as u128;
        proof {
            let next = ds.take(i + 1 - lo);
            assert(next.drop_last() =~= ds.take(i - lo));
            assert(next.last() == c);
            assert(wide == dec_value(next));
        }
        if wide > max as u128 {
            proof {
                if ascii_digits(ds) {
                    lemma_dec_value_grows(ds, i + 1 - lo);
                }
            }
            return None;
        }
        v = wide as u64;
        i = i + 1;
    }
    assert(ds.take(ds.len() as int) =~= ds);
    Some(v)
}

/// A number written in decimal is read back as it was.
pub proof fn law_decimal_reads_back(n: nat, max: nat)
    requires
        n <= max,
    ensures
        parsed_unsigned(dec(n), max) == Some(n),
{
    lemma_dec_digits(n);
    assert(dec(n)[0] != '+');
}

pub proof fn lemma_dec_digits(n: nat)
    ensures
        ascii_digits(dec(n)),
        dec_value(dec(n)) == n,
    decreases n,
{
    let d = digit_char((n % 10) as int);
    assert('0' <= d <= '9');
    assert(d as nat - '0' as nat == n % 10);
    if n < 10 {
        let t = dec(n);
        assert(t.drop_last() =~= Seq::<char>::empty());
        reveal_with_fuel(dec_value, 2);
    } else {
        lemma_dec_digits(n / 10);
        let t = dec(n / 10);
        assert(t.push(d).drop_last() =~= t);
        assert forall|i: int| 0 <= i < t.push(d).len() implies '0' <= #[trigger] t.push(d)[i]
            <= '9' by {
            if i < t.len() {
                assert(t.push(d)[i] == t[i]);
            }
        }
    }
}

// ---------------------------------------------------------------------------
// White space
// ---------------------------------------------------------------------------

/// Unicode's `White_Space` property.
pub open spec fn white_space(c: char) -> bool {
    ||| 0x09 <= c as int <= 0x0d
    ||| c as int == 0x20
    ||| c as int == 0x85
    ||| c as int == 0xa0
    ||| c as int == 0x1680
    ||| 0x2000 <= c as int <= 0x200a
    ||| c as int == 0x2028
    ||| c as int == 0x2029
    ||| c as int == 0x202f
    ||| c as int == 0x205f
    ||| c as int == 0x3000
}

/// Whether `c` is white space.
pub fn is_white_space(c: char) -> (r: bool)
    ensures
        r == white_space(c),
{
    let n: u32 = c as u32;
    (0x09 <= n && n <= 0x0d) || n == 0x20 || n == 0x85 || n == 0xa0 || n == 0x1680 || (0x2000 <= n
        && n <= 0x200a) || n == 0x2028 || n == 0x2029 || n == 0x202f || n == 0x205f || n == 0x3000
}

/// `t` without its trailing white space.
pub open spec fn trim_end(t: Seq<char>) -> Seq<char>
    decreases t.len(),
{
    if t.len() > 0 && white_space(t.last()) {
        trim_end(t.drop_last())
    } else {
        t
    }
}

/// `t` without its leading white space.
pub open spec fn trim_start(t: Seq<char>) -> Seq<char>
    decreases t.len(),
{
    if t.len() > 0 && white_space(t[0]) {
        trim_start(t.drop_first())
    } else {
        t
    }
}

/// `t` without white space at either end.
pub open spec fn trim(t: Seq<char>) -> Seq<char> {
    trim_start(trim_end(t))
}

/// The bounds of `cs[lo..hi]` with white space dropped from its end.
pub fn trim_end_at(cs: &Vec<char>, lo: usize, hi: usize) -> (r: usize)
    requires
        lo <= hi <= cs.len(),
    ensures
        lo <= r <= hi,
        cs@.subrange(lo as int, r as int) == trim_end(cs@.subrange(lo as int, hi as int)),
{
    let mut e: usize = hi;
    while e > lo && is_white_space(cs[e - 1])
        invariant
            lo <= e <= hi <= cs.len(),
            trim_end(cs@.subrange(lo as int, e as int)) == trim_end(
                cs@.subrange(lo as int, hi as int),
            ),
        decreases e,
    {
        proof {
            assert(cs@.subrange(lo as int, e as int).drop_last() =~= cs@.subrange(
                lo as int,
                e - 1,
            ));
        }
        e = e - 1;
    }
    e
}

/// The bounds of `cs[lo..hi]` with white space dropped from its start.
pub fn trim_start_at(cs: &Vec<char>, lo: usize, hi: usize) -> (r: usize)
    requires
        lo <= hi <= cs.len(),
    ensures
        lo <= r <= hi,
        cs@.subrange(r as int, hi as int) == trim_start(cs@.subrange(lo as int, hi as int)),
{
    let mut b: usize = lo;
    while b < hi && is_white_space(cs[b])
        invariant
            lo <= b <= hi <= cs.len(),
            trim_start(cs@.subrange(b as int, hi as int)) == trim_start(
                cs@.subrange(lo as int, hi as int),
            ),
        decreases hi - b,
    {
        proof {
            assert(cs@.subrange(b as int, hi as int).drop_first() =~= cs@.subrange(
                b + 1,
                hi as int,
            ));
        }
        b = b + 1;
    }
    b
}

/// `s` without white space at either end.
pub fn trimmed(s: &str) -> (r: String)
    ensures
        r@ == trim(s@),
{
    let cs = chars_of(s);
    let hi: usize = trim_end_at(&cs, 0, cs.len());
    let lo: usize = trim_start_at(&cs, 0, hi);
    assert(cs@.subrange(0, cs@.len() as int) =~= cs@);
    slice_string(&cs, lo, hi)
}

// ---------------------------------------------------------------------------
// Fields and lines
// ---------------------------------------------------------------------------

/// The first position at or after `from` that holds `c`, or the length.
pub open spec fn run_end(t: Seq<char>, from: int, c: char) -> int
    decreases t.len() - from,
{
    if from >= t.len() || t[from] == c {
        from
    } else {
        run_end(t, from + 1, c)
    }
}

pub proof fn lemma_run_end(t: Seq<char>, from: int, c: char)
    requires
        0 <= from <= t.len(),
    ensures
        from <= run_end(t, from, c) <= t.len(),
        run_end(t, from, c) < t.len() ==> t[run_end(t, from, c)] == c,
        forall|i: int| from <= i < run_end(t, from, c) ==> t[i] != c,
    decreases t.len() - from,
{
    if from >= t.len() || t[from] == c {
    } else {
        lemma_run_end(t, from + 1, c);
    }
}

/// The fields of `t` from position `from` on, separated by `c`.
pub open spec fn fields_from(t: Seq<char>, from: int, c: char) -> Seq<Seq<char>>
    decreases t.len() - from,
{
    if from < 0 || from > t.len() {
        seq![]
    } else {
        proof {
            lemma_run_end(t, from, c);
        }
        let e = run_end(t, from, c);
        if e >= t.len() {
            seq![t.subrange(from, t.len() as int)]
        } else {
            seq![t.subrange(from, e)] + fields_from(t, e + 1, c)
        }
    }
}

/// The fields of `t` separated by `c`; a text without `c` is its only field.
pub open spec fn fields(t: Seq<char>, c: char) -> Seq<Seq<char>> {
    fields_from(t, 0, c)
}

proof fn lemma_run_end_extends(t: Seq<char>, more: Seq<char>, from: int, c: char)
    requires
        0 <= from <= t.len(),
        more.len() > 0,
        more[0] == c,
    ensures
        run_end(t + more, from, c) == run_end(t, from, c),
    decreases t.len() - from,
{
    let all = t + more;
    if from < t.len() {
        assert(all[from] == t[from]);
        if t[from] != c {
            lemma_run_end_extends(t, more, from + 1, c);
        }
    }
}

proof fn lemma_run_end_shifts(before: Seq<char>, t: Seq<char>, from: int, c: char)
    requires
        0 <= from <= t.len(),
    ensures
        run_end(before + t, before.len() + from, c) == before.len() + run_end(t, from, c),
    decreases t.len() - from,
{
    if from < t.len() {
        assert((before + t)[before.len() + from] == t[from]);
        if t[from] != c {
            lemma_run_end_shifts(before, t, from + 1, c);
        }
    }
}

proof fn lemma_fields_shift(before: Seq<char>, t: Seq<char>, from: int, c: char)
    requires
        0 <= from <= t.len(),
    ensures
        fields_from(before + t, before.len() + from, c) == fields_from(t, from, c),
    decreases t.len() - from,
{
    let all = before + t;
    let n = before.len();
    lemma_run_end(t, from, c);
    lemma_run_end_shifts(before, t, from, c);
    let e = run_end(t, from, c);
    assert(all.subrange(n + from, n + e) =~= t.subrange(from, e));
    if e < t.len() {
        lemma_fields_shift(before, t, e + 1, c);
    }
}

/// The fields of two texts with a separator between them are those of the one and then those
/// of the other.
pub proof fn lemma_fields_join(t: Seq<char>, from: int, c: char, b: Seq<char>)
    requires
        0 <= from <= t.len(),
    ensures
        fields_from(t + seq![c] + b, from, c) == fields_from(t, from, c) + fields(b, c),
    decreases t.len() - from,
{
    let all = t + seq![c] + b;
    let more = seq![c] + b;
    assert(all =~= t + more);
    lemma_run_end(t, from, c);
    lemma_run_end_extends(t, more, from, c);
    let e = run_end(t, from, c);
    assert(all.subrange(from, e) =~= t.subrange(from, e));
    if e < t.len() {
        lemma_fields_join(t, e + 1, c, b);
        assert(fields_from(all, from, c) =~= fields_from(t, from, c) + fields(b, c));
    } else {
        lemma_fields_shift(t + seq![c], b, 0, c);
        assert(fields_from(all, from, c) =~= fields_from(t, from, c) + fields(b, c));
    }
}

/// A text without the separator is its only field.
pub proof fn lemma_single_field(t: Seq<char>, c: char)
    requires
        !t.contains(c),
    ensures
        fields(t, c) == seq![t],
{
    lemma_run_end(t, 0, c);
    let e = run_end(t, 0, c);
    if e < t.len() {
        assert(t[e] == c);
        assert(t.contains(c));
    }
    assert(t.subrange(0, t.len() as int) =~= t);
}

/// The first position at or after `from` that holds `c`, or the length.
pub fn find_char(cs: &Vec<char>, from: usize, c: char) -> (r: usize)
    requires
        from <= cs.len(),
    ensures
        r == run_end(cs@, from as int, c),
        from <= r <= cs.len(),
{
    let mut i: usize = from;
    while i < cs.len() && cs[i] != c
        invariant
            from <= i <= cs.len(),
            run_end(cs@, i as int, c) == run_end(cs@, from as int, c),
        decreases cs.len() - i,
    {
        i = i + 1;
    }
    i
}

/// The fields of `s` separated by `c`.
pub fn split_fields(s: &str, c: char) -> (r: Vec<String>)
    ensures
        views(r@) == fields(s@, c),
        r.len() >= 1,
{
    let cs = chars_of(s);
    let mut out: Vec<String> = Vec::new();
    let mut pos: usize = 0;
    loop
        invariant_except_break
            pos <= cs.len(),
            cs@ == s@,
            views(out@) + fields_from(cs@, pos as int, c) == fields(s@, c),
        ensures
            views(out@) == fields(s@, c),
            out.len() >= 1,
        decreases cs.len() - pos,
    {
        proof {
            lemma_run_end(cs@, pos as int, c);
        }
        let e: usize = find_char(&cs, pos, c);
        let ghost before = out@;
        out.push(slice_string(&cs, pos, e));
        proof {
            lemma_views_push(before, out@.last());
        }
        if e >= cs.len() {
            assert(views(out@) =~= views(before) + fields_from(cs@, pos as int, c));
            break;
        }
        proof {
            assert(views(out@) + fields_from(cs@, e + 1, c) =~= views(before) + fields_from(
                cs@,
                pos as int,
                c,
            ));
        }
        pos = e + 1;
    }
    out
}

/// A terminated line loses one carriage return before its line feed.
pub open spec fn strip_cr(t: Seq<char>) -> Seq<char> {
    if t.len() > 0 && t.last() == '\r' {
        t.drop_last()
    } else {
        t
    }
}

/// The lines of `t` from position `from` on.
pub open spec fn lines_from(t: Seq<char>, from: int) -> Seq<Seq<char>>
    decreases t.len() - from,
{
    if from < 0 || from >= t.len() {
        seq![]
    } else {
        proof {
            lemma_run_end(t, from, '\n');
        }
        let e = run_end(t, from, '\n');
        if e >= t.len() {
            seq![t.subrange(from, t.len() as int)]
        } else {
            seq![strip_cr(t.subrange(from, e))] + lines_from(t, e + 1)
        }
    }
}

/// The lines of `t`: ended by a line feed, or a carriage return and a line feed;
/// the last line needs no ending.
pub open spec fn lines_of(t: Seq<char>) -> Seq<Seq<char>> {
    lines_from(t, 0)
}

/// A text without a line feed is one line, with or without a line end behind it; of the text
/// itself nothing is lost.
pub proof fn law_one_line(t: Seq<char>, end: Seq<char>)
    requires
        t.len() > 0,
        forall|i: int| 0 <= i < t.len() ==> #[trigger] t[i] != '\n',
        end == Seq::<char>::empty() || end == "\n"@ && t.last() != '\r' || end == "\r\n"@,
    ensures
        lines_of(t + end) == seq![t],
{
    reveal_strlit("\n");
    reveal_strlit("\r\n");
    let all = t + end;
    if end.len() == 0 {
        assert(all =~= t);
        lemma_run_end_stops(all, 0, '\n', all.len() as int);
        assert(all.subrange(0, all.len() as int) =~= t);
    } else {
        let e: int = all.len() - 1;
        assert(all[e] == '\n');
        assert forall|i: int| 0 <= i < e implies #[trigger] all[i] != '\n' by {
            if i < t.len() {
                assert(all[i] == t[i]);
            } else {
                assert(all[i] == end[i - t.len()]);
            }
        }
        lemma_run_end_stops(all, 0, '\n', e);
        let line = all.subrange(0, e);
        if end.len() == 1 {
            assert(line =~= t);
        } else {
            assert(line.last() == '\r');
            assert(line.drop_last() =~= t);
        }
        assert(lines_from(all, e + 1) =~= Seq::<Seq<char>>::empty());
        assert(lines_of(all) =~= seq![t]);
    }
}

proof fn lemma_run_end_stops(t: Seq<char>, from: int, c: char, e: int)
    requires
        0 <= from <= e <= t.len(),
        forall|i: int| from <= i < e ==> #[trigger] t[i] != c,
        e < t.len() ==> t[e] == c,
    ensures
        run_end(t, from, c) == e,
    decreases e - from,
{
    if from < e {
        lemma_run_end_stops(t, from + 1, c, e);
    }
}

/// The lines of `s`.
pub fn lines(s: &str) -> (r: Vec<String>)
    ensures
        views(r@) == lines_of(s@),
{
    let cs = chars_of(s);
    let mut out: Vec<String> = Vec::new();
    let mut pos: usize = 0;
    while pos < cs.len()
        invariant
            pos <= cs.len(),
            cs@ == s@,
            views(out@) + lines_from(cs@, pos as int) == lines_of(s@),
        decreases cs.len() - pos,
    {
        proof {
            lemma_run_end(cs@, pos as int, '\n');
        }
        let e: usize = find_char(&cs, pos, '\n');
        let mut stop: usize = e;
        if e < cs.len() && e > pos && cs[e - 1] == '\r' {
            stop = e - 1;
        }
        let ghost before = out@;
        out.push(slice_string(&cs, pos, stop));
        proof {
            lemma_views_push(before, out@.last());
            let line = cs@.subrange(pos as int, e as int);
            if e < cs.len() {
                if stop < e {
                    assert(cs@.subrange(pos as int, stop as int) =~= line.drop_last());
                }
                assert(out@.last()@ == strip_cr(line));
                assert(views(out@) + lines_from(cs@, e + 1) =~= views(before) + lines_from(
                    cs@,
                    pos as int,
                ));
            } else {
                assert(views(out@) =~= views(before) + lines_from(cs@, pos as int));
                assert(views(out@) + lines_from(cs@, cs@.len() as int) =~= views(out@));
            }
        }
        if e < cs.len() {
            pos = e + 1;
        } else {
            pos = e;
        }
    }
    assert(views(out@) + lines_from(cs@, pos as int) =~= views(out@));
    out
}

// ---------------------------------------------------------------------------
// Searching
// ---------------------------------------------------------------------------

/// Whether `p` stands in `t` at position `i`.
pub open spec fn occurs_at(t: Seq<char>, p: Seq<char>, i: int) -> bool {
    0 <= i && i + p.len() <= t.len() && t.subrange(i, i + p.len()) == p
}

/// Whether `p` stands anywhere in `t`.
pub open spec fn occurs(t: Seq<char>, p: Seq<char>) -> bool {
    exists|i: int| occurs_at(t, p, i)
}

/// Whether `p` stands in `cs` at position `i`.
pub fn matches_at(cs: &Vec<char>, i: usize, p: &Vec<char>) -> (r: bool)
    requires
        i <= cs.len(),
    ensures
        r == occurs_at(cs@, p@, i as int),
{
    if cs.len() - i < p.len() {
        return false;
    }
    let mut k: usize = 0;
    while k < p.len()
        invariant
            k <= p.len(),
            i + p.len() <= cs.len(),
            forall|j: int| 0 <= j < k ==> cs@[i + j] == p@[j],
        decreases p.len() - k,
    {
        if cs[i + k] != p[k] {
            assert(cs@.subrange(i as int, i + p.len())[k as int] != p@[k as int]);
            return false;
        }
        k = k + 1;
    }
    assert(cs@.subrange(i as int, i + p.len()) =~= p@);
    true
}

/// The first position at or after `from` at which `p` stands in `cs`.
pub fn find_text(cs: &Vec<char>, from: usize, p: &Vec<char>) -> (r: Option<usize>)
    requires
        from <= cs.len(),
    ensures
        match r {
            Some(i) => from <= i && occurs_at(cs@, p@, i as int) && forall|j: int|
                from <= j < i ==> !occurs_at(cs@, p@, j),
            None => forall|j: int| from <= j ==> !occurs_at(cs@, p@, j),
        },
{
    let mut i: usize = from;
    while i < cs.len()
        invariant
            from <= i <= cs.len(),
            forall|j: int| from <= j < i ==> !occurs_at(cs@, p@, j),
        decreases cs.len() - i,
    {
        if matches_at(cs, i, p) {
            return Some(i);
        }
        i = i + 1;
    }
    if matches_at(cs, i, p) {
        return Some(i);
    }
    None
}

/// Whether `p` stands anywhere in `s`.
pub fn contains_text(s: &str, p: &str) -> (r: bool)
    ensures
        r == occurs(s@, p@),
{
    let cs = chars_of(s);
    let pc = chars_of(p);
    match find_text(&cs, 0, &pc) {
        Some(i) => true,
        None => false,
    }
}

// ---------------------------------------------------------------------------
// Joining
// ---------------------------------------------------------------------------

/// The parts in order, with `sep` between neighbours.
pub open spec fn joined(parts: Seq<Seq<char>>, sep: Seq<char>) -> Seq<char>
    decreases parts.len(),
{
    if parts.len() == 0 {
        seq![]
    } else if parts.len() == 1 {
        parts[0]
    } else {
        joined(parts.drop_last(), sep) + sep + parts.last()
    }
}

/// The strings in order, with `sep` between neighbours.
pub fn join(parts: &Vec<String>, sep: &str) -> (r: String)
    ensures
        r@ == joined(views(parts@), sep@),
{
    let mut out = String::new();
    let mut i: usize = 0;
    while i < parts.len()
        invariant
            i <= parts.len(),
            out@ == joined(views(parts@).take(i as int), sep@),
        decreases parts.len() - i,
    {
        proof {
            let t = views(parts@).take(i + 1);
            assert(t.drop_last() =~= views(parts@).take(i as int));
            assert(t.last() == parts@[i as int]@);
        }
        if i > 0 {
            out.append(sep);
        }
        let ghost before = out@;
        out.append(parts[i].as_str());
        proof {
            if i == 0 {
                assert(before + parts@[0]@ =~= parts@[0]@);
            }
        }
        i = i + 1;
    }
    assert(views(parts@).take(parts@.len() as int) =~= views(parts@));
    out
}

// ---------------------------------------------------------------------------
// Laws
// ---------------------------------------------------------------------------

/// Whether a text is nothing but white space.
pub open spec fn all_white(t: Seq<char>) -> bool {
    forall|i: int| 0 <= i < t.len() ==> white_space(#[trigger] t[i])
}

/// Trimming takes white space off both ends of a text, all of it and nothing else: the text is
/// white space, what is left, and white space again.
pub proof fn law_trimming_takes_white_space_only(t: Seq<char>)
    ensures
        ({
            let u = trim(t);
            &&& exists|a: Seq<char>, b: Seq<char>|
                all_white(a) && all_white(b) && t == #[trigger] (a + u + b)
            &&& u.len() > 0 ==> !white_space(u[0]) && !white_space(u.last())
            &&& all_white(t) <==> u.len() == 0
        }),
{
    lemma_trim_end(t);
    lemma_trim_start(trim_end(t));
    let v = trim_end(t);
    let u = trim(t);
    let b = choose|b: Seq<char>| all_white(b) && t == v + b;
    let a = choose|a: Seq<char>| all_white(a) && v == a + u;
    assert(t =~= a + u + b);
    if u.len() > 0 {
        assert(u.last() == v.last());
        assert(t[a.len() as int] == u[0]);
        assert(!all_white(t));
    } else {
        assert forall|i: int| 0 <= i < t.len() implies white_space(#[trigger] t[i]) by {
            if i < a.len() {
                assert(t[i] == a[i]);
            } else {
                assert(t[i] == b[i - a.len()]);
            }
        }
    }
}

/// The same at the end alone.
pub proof fn law_trimming_the_end(t: Seq<char>)
    ensures
        trim_end(t).is_prefix_of(t),
        all_white(t.skip(trim_end(t).len() as int)),
        trim_end(t).len() > 0 ==> !white_space(trim_end(t).last()),
{
    lemma_trim_end(t);
    let b = choose|b: Seq<char>| all_white(b) && t == trim_end(t) + b;
    assert(t.skip(trim_end(t).len() as int) =~= b);
}

proof fn lemma_trim_end(t: Seq<char>)
    ensures
        exists|b: Seq<char>| all_white(b) && t == #[trigger] (trim_end(t) + b),
        trim_end(t).len() > 0 ==> !white_space(trim_end(t).last()),
    decreases t.len(),
{
    if t.len() > 0 && white_space(t.last()) {
        lemma_trim_end(t.drop_last());
        let b = choose|b: Seq<char>|
            all_white(b) && t.drop_last() == #[trigger] (trim_end(t.drop_last()) + b);
        let c = b.push(t.last());
        let u = trim_end(t.drop_last());
        assert(t =~= t.drop_last().push(t.last()));
        assert((u + b).push(t.last()) =~= u + c);
        assert(t == trim_end(t) + c);
        assert(all_white(c));
    } else {
        assert(t =~= trim_end(t) + Seq::<char>::empty());
    }
}

proof fn lemma_trim_start(t: Seq<char>)
    ensures
        exists|a: Seq<char>| all_white(a) && t == #[trigger] (a + trim_start(t)),
        trim_start(t).len() > 0 ==> !white_space(trim_start(t)[0]),
    decreases t.len(),
{
    if t.len() > 0 && white_space(t[0]) {
        lemma_trim_start(t.drop_first());
        let a = choose|a: Seq<char>|
            all_white(a) && t.drop_first() == #[trigger] (a + trim_start(t.drop_first()));
        let c = seq![t[0]] + a;
        let u = trim_start(t.drop_first());
        assert(t =~= seq![t[0]] + t.drop_first());
        assert(seq![t[0]] + (a + u) =~= c + u);
        assert(t == c + trim_start(t));
        assert(all_white(c)) by {
            assert forall|i: int| 0 <= i < c.len() implies white_space(#[trigger] c[i]) by {
                if i > 0 {
                    assert(c[i] == a[i - 1]);
                }
            }
        }
    } else {
        assert(t =~= Seq::<char>::empty() + trim_start(t));
    }
}

/// Of the characters of ASCII, white space are the tab, the four that end a line or page, and the
/// space.
pub proof fn law_ascii_white_space(c: char)
    requires
        (c as u32) < 128,
    ensures
        white_space(c) <==> c == '\t' || c == '\n' || c as u32 == 11 || c as u32 == 12 || c == '\r'
            || c == ' ',
{
}

/// Texts that hold no line end, written one to a line, are read back as they were, none lost and
/// none added.
pub proof fn law_lines_are_read_back(parts: Seq<Seq<char>>)
    requires
        forall|i: int|
            0 <= i < parts.len() ==> !(#[trigger] parts[i]).contains('\n') && (parts[i].len() > 0
                ==> parts[i].last() != '\r'),
    ensures
        lines_of(line_by_line(parts)) == parts,
    decreases parts.len(),
{
    if parts.len() == 0 {
        assert(lines_of(line_by_line(parts)) =~= parts);
    } else {
        let rest = parts.drop_first();
        assert forall|i: int| 0 <= i < rest.len() implies !(#[trigger] rest[i]).contains('\n') && (
        rest[i].len() > 0 ==> rest[i].last() != '\r') by {
            assert(rest[i] == parts[i + 1]);
        }
        law_lines_are_read_back(rest);
        let p = parts[0];
        let t = line_by_line(parts);
        let tail = line_by_line(rest);
        let e = p.len() as int;
        assert(t[e] == '\n');
        assert forall|i: int| 0 <= i < e implies #[trigger] t[i] != '\n' by {
            assert(t[i] == p[i]);
        }
        lemma_run_end_stops(t, 0, '\n', e);
        assert(t.subrange(0, e) =~= p);
        assert(strip_cr(p) == p);
        lemma_lines_shift(p.push('\n'), tail, 0);
        assert(p.push('\n') + tail =~= t);
        assert(lines_from(t, e + 1) == lines_of(tail));
        assert(seq![p] + rest =~= parts);
    }
}

/// The texts, each with a line feed behind it.
pub open spec fn line_by_line(parts: Seq<Seq<char>>) -> Seq<char>
    decreases parts.len(),
{
    if parts.len() == 0 {
        seq![]
    } else {
        parts[0] + seq!['\n'] + line_by_line(parts.drop_first())
    }
}

proof fn lemma_lines_shift(before: Seq<char>, t: Seq<char>, from: int)
    requires
        0 <= from <= t.len(),
    ensures
        lines_from(before + t, before.len() + from) == lines_from(t, from),
    decreases t.len() - from,
{
    let all = before + t;
    if from < t.len() {
        lemma_run_end(t, from, '\n');
        let e = run_end(t, from, '\n');
        let n = before.len() as int;
        assert(run_end(all, n + from, '\n') == n + e) by {
            assert forall|i: int| n + from <= i < n + e implies #[trigger] all[i] != '\n' by {
                assert(all[i] == t[i - n]);
            }
            lemma_run_end_stops(all, n + from, '\n', n + e);
        }
        assert(all.subrange(n + from, n + e) =~= t.subrange(from, e));
        if e < t.len() {
            lemma_lines_shift(before, t, e + 1);
        }
    }
}

/// Joined texts stand in their order with the separator between each two: joining two lists one
/// after the other puts it between them, and one text alone is as it was.
pub proof fn law_joining_puts_the_separator_between(
    a: Seq<Seq<char>>,
    b: Seq<Seq<char>>,
    one: Seq<char>,
    sep: Seq<char>,
)
    ensures
        joined(Seq::<Seq<char>>::empty(), sep) == Seq::<char>::empty(),
        joined(seq![one], sep) == one,
        a.len() > 0 && b.len() > 0 ==> joined(a + b, sep) == joined(a, sep) + sep + joined(b, sep),
    decreases b.len(),
{
    if a.len() > 0 && b.len() > 0 {
        assert((a + b).drop_last() =~= a + b.drop_last());
        assert((a + b).last() == b.last());
        if b.len() == 1 {
            assert(a + b.drop_last() =~= a);
        } else {
            law_joining_puts_the_separator_between(a, b.drop_last(), one, sep);
            let x = joined(a, sep);
            let y = joined(b.drop_last(), sep);
            assert(x + sep + y + sep + b.last() =~= x + sep + (y + sep + b.last()));
        }
    }
}

/// A number is written digit by digit: one digit alone as that digit, and a further one behind
/// the others. No two numbers are written alike.
pub proof fn law_numbers_are_written_in_decimal(n: nat, d: nat, m: nat)
    requires
        d < 10,
    ensures
        dec(d) == seq![('0' as u32 + d) as char],
        n > 0 ==> dec(n * 10 + d) == dec(n).push(('0' as u32 + d) as char),
        dec(n) == dec(m) ==> n == m,
        n > 0 ==> dec_int(-(n as int)) == seq!['-'] + dec(n),
        dec_int(n as int) == dec(n),
{
    lemma_dec_digits(n);
    lemma_dec_digits(m);
    if n > 0 {
        assert((n * 10 + d) / 10 == n);
        assert((n * 10 + d) % 10 == d);
    }
}

/// A number is read only from a text of digits, perhaps behind a plus sign, that is no greater
/// than the limit; leading zeros do not matter.
pub proof fn law_only_numbers_are_read(t: Seq<char>, max: nat)
    ensures
        parsed_unsigned(t, max) matches Some(n) ==> n <= max && t.len() > 0 && (forall|i: int|
            0 < i < t.len() ==> '0' <= #[trigger] t[i] <= '9') && ('0' <= t[0] <= '9' || t[0]
            == '+' && t.len() > 1),
        parsed_unsigned(seq!['+'] + t, max) == if ascii_digits(t) {
            parsed_unsigned(t, max)
        } else {
            None
        },
        ascii_digits(t) ==> parsed_unsigned(seq!['0'] + t, max) == parsed_unsigned(t, max),
{
    let p = seq!['+'] + t;
    assert(p.drop_first() =~= t);
    if parsed_unsigned(t, max) is Some {
        let ds = unsigned_digits(t);
        assert forall|i: int| 0 < i < t.len() implies '0' <= #[trigger] t[i] <= '9' by {
            if t[0] == '+' {
                assert(ds[i - 1] == t[i]);
            } else {
                assert(ds[i] == t[i]);
            }
        }
        if t[0] != '+' {
            assert(ds[0] == t[0]);
        }
    }
    if ascii_digits(t) {
        assert(t[0] != '+');
        let z = seq!['0'] + t;
        assert(z[0] == '0');
        lemma_leading_zero(t);
        assert(ascii_digits(z)) by {
            assert forall|i: int| 0 <= i < z.len() implies '0' <= #[trigger] z[i] <= '9' by {
                if i > 0 {
                    assert(z[i] == t[i - 1]);
                }
            }
        }
    }
}

proof fn lemma_leading_zero(t: Seq<char>)
    ensures
        dec_value(seq!['0'] + t) == dec_value(t),
    decreases t.len(),
{
    let z = seq!['0'] + t;
    if t.len() == 0 {
        assert(z.drop_last() =~= Seq::<char>::empty());
        reveal_with_fuel(dec_value, 2);
    } else {
        lemma_leading_zero(t.drop_last());
        assert(z.drop_last() =~= seq!['0'] + t.drop_last());
    }
}

/// A text that is split at a character and joined by it again is as it was.
pub proof fn law_fields_are_joined_back(t: Seq<char>, c: char)
    ensures
        joined(fields(t, c), seq![c]) == t,
        fields(t, c).len() > 0,
{
    lemma_fields_joined(t, 0, c);
    assert(t.subrange(0, t.len() as int) =~= t);
}

proof fn lemma_fields_joined(t: Seq<char>, from: int, c: char)
    requires
        0 <= from <= t.len(),
    ensures
        joined(fields_from(t, from, c), seq![c]) == t.subrange(from, t.len() as int),
        fields_from(t, from, c).len() > 0,
    decreases t.len() - from,
{
    lemma_run_end(t, from, c);
    let e = run_end(t, from, c);
    if e < t.len() {
        lemma_fields_joined(t, e + 1, c);
        let rest = fields_from(t, e + 1, c);
        let first = t.subrange(from, e);
        law_joining_puts_the_separator_between(seq![first], rest, first, seq![c]);
        assert(fields_from(t, from, c) =~= seq![first] + rest);
        assert(first + seq![c] + t.subrange(e + 1, t.len() as int) =~= t.subrange(
            from,
            t.len() as int,
        ));
    } else {
        assert(fields_from(t, from, c) =~= seq![t.subrange(from, t.len() as int)]);
    }
}

/// No field holds the character that separates them.
pub proof fn law_fields_hold_no_separator(t: Seq<char>, c: char, i: int)
    requires
        0 <= i < fields(t, c).len(),
    ensures
        !fields(t, c)[i].contains(c),
{
    lemma_fields_free(t, 0, c, i);
}

proof fn lemma_fields_free(t: Seq<char>, from: int, c: char, i: int)
    requires
        0 <= from <= t.len(),
        0 <= i < fields_from(t, from, c).len(),
    ensures
        !fields_from(t, from, c)[i].contains(c),
    decreases t.len() - from,
{
    lemma_run_end(t, from, c);
    let e = run_end(t, from, c);
    if i == 0 {
        let f = fields_from(t, from, c)[0];
        if f.contains(c) {
            let k = choose|k: int| 0 <= k < f.len() && f[k] == c;
            assert(t[from + k] == c);
        }
    } else {
        lemma_fields_free(t, e + 1, c, i - 1);
    }
}

/// White space around a text that has none at its ends is all that is trimmed, however much of it
/// there is.
pub proof fn law_trimming_gives_what_is_between(a: Seq<char>, t: Seq<char>, b: Seq<char>)
    requires
        all_white(a),
        all_white(b),
        t.len() > 0,
        !white_space(t[0]),
        !white_space(t.last()),
    ensures
        trim(a + t + b) == t,
        trim_start(a + t) == t,
        trim_end(t + b) == t,
    decreases a.len() + b.len(),
{
    if b.len() > 0 {
        let less = b.drop_last();
        assert(b[b.len() - 1] == b.last());
        assert forall|i: int| 0 <= i < less.len() implies white_space(#[trigger] less[i]) by {
            assert(less[i] == b[i]);
        }
        law_trimming_gives_what_is_between(a, t, less);
        assert((a + t + b).drop_last() =~= a + t + less);
        assert((t + b).drop_last() =~= t + less);
    } else {
        assert(t + b =~= t);
        assert(a + t + b =~= a + t);
        assert((a + t).last() == t.last());
        if a.len() > 0 {
            let less = a.drop_first();
            assert(a[0] == a.first());
            assert forall|i: int| 0 <= i < less.len() implies white_space(#[trigger] less[i]) by {
                assert(less[i] == a[i + 1]);
            }
            law_trimming_gives_what_is_between(less, t, b);
            assert((a + t).drop_first() =~= less + t);
        } else {
            assert(a + t =~= t);
        }
    }
}

/// A number over the limit is not read.
pub proof fn law_numbers_over_the_limit_are_not_read(n: nat, max: nat)
    requires
        n > max,
    ensures
        parsed_unsigned(dec(n), max) is None,
{
    lemma_dec_digits(n);
    assert(dec(n)[0] != '+');
}

/// The views of strings are their texts, in their order.
pub proof fn law_texts_are_seen_in_order(v: Seq<String>)
    ensures
        views(v).len() == v.len(),
        forall|i: int| 0 <= i < v.len() ==> #[trigger] views(v)[i] == v[i]@,
{
}

/// An absent text is seen as absent, and any other as what it is.
pub proof fn law_optional_texts_are_seen(s: Option<String>)
    ensures
        s matches Some(t) ==> opt_view(s) == Some(t@),
        s is None ==> opt_view(s) is None,
{
}

} // verus!
