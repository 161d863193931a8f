//! The depth guard: a proxy for the depth of the syntax tree that the parser would
//! build, computed from the token stream.
//!
//! The parser's own guard bounds only recursive descent. Left-associative chains
//! (`a+a+..`, `a.b.c..`, `f()()..`, `a[i][j]..`, `a as T as T..`) are built in one stack
//! frame, so their trees are nested to the full length of the chain and releasing them
//! recurses that deep. The proxy charges one unit for each chain operator and one for
//! each open bracket. A postfix call or index is banked onto the enclosing expression
//! when it closes, so a chain accumulates but a nest is not counted twice. Statement and
//! block ends clear the enclosing chain. What this proxy does not show is counted in [`links`].

use vstd::prelude::*;

use super::links;
use super::links::is_strained;
use super::tokens::{
    AMP_AMP, AS_KW, BANG_EQ, BIN_LIT, BLOCK_COMMENT, DOT, EQ_EQ, FALSE_KW, GT, GT_EQ, HEX_LIT,
    IDENT, INT_LIT, LINE_COMMENT, LT, LT_EQ, L_BRACE, L_BRACKET, L_PAREN, MINUS, OCT_LIT,
    PIPE_PIPE, PLUS, QUESTION, R_BRACE, R_BRACKET, R_PAREN, SEMICOLON, STAR, STRING_LIT, TRUE_KW,
    WHITESPACE,
};

verus! {

/// Maximum structural depth that is handed to the parser. It sits well above any real
/// contract and far below the depth at which releasing the tree exhausts the stack.
pub const MAX_STRUCTURAL_DEPTH: usize = 512;

/// The kinds of the tokens that `compactp_lexer::lex` makes of a source text, in order.
pub uninterp spec fn token_kinds(source: Seq<char>) -> Seq<u16>;

/// `compactp_lexer::lex`: the kinds of the tokens of `source`, in source order, as
/// `SyntaxKind` numbers them. Which tokens a text has is left to the name.
#[verifier::external_body]
pub(crate) fn lex(source: &str) -> (r: Vec<u16>)
    ensures
        r@ == token_kinds(source@),
{
    compactp_lexer::lex(source).into_iter().map(|(kind, _)| u16::from(kind)).collect()
}

// ---------------------------------------------------------------------------
// Model
// ---------------------------------------------------------------------------

/// One bracket level: the chain operators banked on it, and whether its bracket is a
/// postfix call or index.
pub struct Level {
    pub ops: nat,
    pub postfix: bool,
}

/// Where the scan stands: the open levels, outermost first, and whether the last
/// significant token ended a value.
pub struct Scan {
    pub levels: Seq<Level>,
    pub after_value: bool,
}

pub open spec fn trivia(kind: u16) -> bool {
    kind == WHITESPACE || kind == LINE_COMMENT || kind == BLOCK_COMMENT
}

pub open spec fn closes(kind: u16) -> bool {
    kind == R_PAREN || kind == R_BRACKET || kind == R_BRACE
}

/// The operators of which the parser builds left-nested chains.
pub open spec fn chain_operator(kind: u16) -> bool {
    ||| kind == PLUS
    ||| kind == MINUS
    ||| kind == STAR
    ||| kind == PIPE_PIPE
    ||| kind == AMP_AMP
    ||| kind == EQ_EQ
    ||| kind == BANG_EQ
    ||| kind == LT
    ||| kind == LT_EQ
    ||| kind == GT
    ||| kind == GT_EQ
    ||| kind == AS_KW
    ||| kind == DOT
    ||| kind == QUESTION
}

/// The tokens that end a value, behind which a bracket is a call or an index.
pub open spec fn ends_value(kind: u16) -> bool {
    ||| kind == IDENT
    ||| closes(kind)
    ||| kind == INT_LIT
    ||| kind == HEX_LIT
    ||| kind == OCT_LIT
    ||| kind == BIN_LIT
    ||| kind == STRING_LIT
    ||| kind == TRUE_KW
    ||| kind == FALSE_KW
}

pub open spec fn bottom() -> Seq<Level> {
    seq![Level { ops: 0, postfix: false }]
}

/// The innermost level with one more chain operator.
pub open spec fn banked(levels: Seq<Level>) -> Seq<Level> {
    levels.drop_last().push(
        Level { ops: levels.last().ops + 1, postfix: levels.last().postfix },
    )
}

/// The innermost level with its chain cleared.
pub open spec fn cleared(levels: Seq<Level>) -> Seq<Level> {
    levels.drop_last().push(Level { ops: 0, postfix: levels.last().postfix })
}

/// The levels with the innermost one closed. A stray closing bracket leaves an empty
/// bottom level.
pub open spec fn closed(levels: Seq<Level>) -> Seq<Level> {
    let outer = levels.drop_last();
    if outer.len() == 0 {
        bottom()
    } else if levels.last().postfix {
        banked(outer)
    } else {
        outer
    }
}

/// The levels after one significant token.
pub open spec fn levels_after(levels: Seq<Level>, after_value: bool, kind: u16) -> Seq<Level> {
    if kind == L_PAREN || kind == L_BRACKET {
        levels.push(Level { ops: 0, postfix: after_value })
    } else if kind == L_BRACE {
        levels.push(Level { ops: 0, postfix: false })
    } else if kind == R_BRACE {
        cleared(closed(levels))
    } else if closes(kind) {
        closed(levels)
    } else if kind == SEMICOLON {
        cleared(levels)
    } else if chain_operator(kind) {
        banked(levels)
    } else {
        levels
    }
}

/// Where the scan stands after the tokens `kinds`.
pub open spec fn scan_of(kinds: Seq<u16>) -> Scan
    decreases kinds.len(),
{
    if kinds.len() == 0 {
        Scan { levels: bottom(), after_value: false }
    } else {
        let before = scan_of(kinds.drop_last());
        let kind = kinds.last();
        if trivia(kind) {
            before
        } else {
            Scan {
                levels: levels_after(before.levels, before.after_value, kind),
                after_value: ends_value(kind),
            }
        }
    }
}

/// All chain operators banked on the levels.
pub open spec fn ops_sum(levels: Seq<Level>) -> nat
    decreases levels.len(),
{
    if levels.len() == 0 {
        0
    } else {
        ops_sum(levels.drop_last()) + levels.last().ops
    }
}

/// The depth charged for open levels and their chains.
pub open spec fn charge(levels: Seq<Level>) -> nat {
    levels.len() + ops_sum(levels)
}

/// The depth charged after the tokens `kinds`.
pub open spec fn depth_after(kinds: Seq<u16>) -> nat {
    charge(scan_of(kinds).levels)
}

/// The greatest depth charged anywhere in `kinds`, up to and including the first that
/// exceeds the maximum.
pub open spec fn peak_depth(kinds: Seq<u16>) -> nat
    decreases kinds.len(),
{
    if kinds.len() == 0 {
        1
    } else {
        let before = peak_depth(kinds.drop_last());
        if before <= MAX_STRUCTURAL_DEPTH && depth_after(kinds) > before {
            depth_after(kinds)
        } else {
            before
        }
    }
}

/// The depth of a source with the tokens `kinds`: the greatest depth charged, or, where that is
/// not too much but the parser could be strained too much all the same, one more than the maximum.
pub open spec fn source_depth(kinds: Seq<u16>) -> nat {
    if peak_depth(kinds) <= MAX_STRUCTURAL_DEPTH && links::strained(kinds) {
        MAX_STRUCTURAL_DEPTH as nat + 1
    } else {
        peak_depth(kinds)
    }
}

/// Whether a source text is too deep to be parsed.
pub open spec fn too_deep(source: Seq<char>) -> bool {
    source_depth(token_kinds(source)) > MAX_STRUCTURAL_DEPTH
}

// ---------------------------------------------------------------------------
// Facts about the model
// ---------------------------------------------------------------------------

/// There is always a bottom level, and it is no postfix bracket.
pub proof fn lemma_bottom_level(kinds: Seq<u16>)
    ensures
        scan_of(kinds).levels.len() > 0,
        !scan_of(kinds).levels[0].postfix,
    decreases kinds.len(),
{
    if kinds.len() > 0 {
        lemma_bottom_level(kinds.drop_last());
    }
}

pub proof fn lemma_ops_push(levels: Seq<Level>, l: Level)
    ensures
        ops_sum(levels.push(l)) == ops_sum(levels) + l.ops,
{
    assert(levels.push(l).drop_last() =~= levels);
}

pub proof fn lemma_ops_last(levels: Seq<Level>)
    requires
        levels.len() > 0,
    ensures
        ops_sum(levels) == ops_sum(levels.drop_last()) + levels.last().ops,
        ops_sum(banked(levels)) == ops_sum(levels) + 1,
        ops_sum(cleared(levels)) == ops_sum(levels) - levels.last().ops,
        banked(levels).len() == levels.len(),
        cleared(levels).len() == levels.len(),
{
    let outer = levels.drop_last();
    lemma_ops_push(outer, Level { ops: levels.last().ops + 1, postfix: levels.last().postfix });
    lemma_ops_push(outer, Level { ops: 0, postfix: levels.last().postfix });
}

// ---------------------------------------------------------------------------
// Laws
// ---------------------------------------------------------------------------

/// A source is too deep exactly where the depth charged after some prefix of its tokens
/// exceeds the maximum, or something else strains the parser too much.
pub proof fn law_too_deep_iff_some_prefix_is(kinds: Seq<u16>)
    ensures
        source_depth(kinds) > MAX_STRUCTURAL_DEPTH <==> links::strained(kinds) || exists|n: int|
            0 <= n <= kinds.len() && #[trigger] depth_after(kinds.take(n)) > MAX_STRUCTURAL_DEPTH,
{
    lemma_peak_iff_some_prefix(kinds);
}

proof fn lemma_peak_iff_some_prefix(kinds: Seq<u16>)
    ensures
        peak_depth(kinds) > MAX_STRUCTURAL_DEPTH <==> exists|n: int|
            0 <= n <= kinds.len() && #[trigger] depth_after(kinds.take(n)) > MAX_STRUCTURAL_DEPTH,
    decreases kinds.len(),
{
    if kinds.len() == 0 {
        assert forall|n: int| 0 <= n <= kinds.len() implies #[trigger] depth_after(kinds.take(n))
            <= MAX_STRUCTURAL_DEPTH by {
            assert(kinds.take(n) =~= kinds);
            lemma_ops_push(Seq::<Level>::empty(), Level { ops: 0, postfix: false });
            assert(bottom() =~= Seq::<Level>::empty().push(Level { ops: 0, postfix: false }));
        }
    } else {
        let before = kinds.drop_last();
        lemma_peak_iff_some_prefix(before);
        assert(kinds.take(kinds.len() as int) =~= kinds);
        assert forall|n: int| 0 <= n <= before.len() implies before.take(n) == #[trigger] kinds.take(
            n,
        ) by {
            assert(before.take(n) =~= kinds.take(n));
        }
        if peak_depth(before) > MAX_STRUCTURAL_DEPTH {
            let n = choose|n: int|
                0 <= n <= before.len() && #[trigger] depth_after(before.take(n))
                    > MAX_STRUCTURAL_DEPTH;
            assert(depth_after(kinds.take(n)) > MAX_STRUCTURAL_DEPTH);
        } else if depth_after(kinds) > MAX_STRUCTURAL_DEPTH {
            assert(depth_after(kinds.take(kinds.len() as int)) > MAX_STRUCTURAL_DEPTH);
        } else {
            assert forall|n: int| 0 <= n <= kinds.len() implies #[trigger] depth_after(
                kinds.take(n),
            ) <= MAX_STRUCTURAL_DEPTH by {
                if n < kinds.len() {
                    assert(depth_after(before.take(n)) <= MAX_STRUCTURAL_DEPTH);
                }
            }
        }
    }
}

/// Every chain operator and every opening bracket adds one to the depth, whatever stands
/// before it.
pub proof fn law_operator_or_bracket_adds_one(kinds: Seq<u16>, kind: u16)
    requires
        chain_operator(kind) || kind == L_PAREN || kind == L_BRACKET || kind == L_BRACE,
    ensures
        depth_after(kinds.push(kind)) == depth_after(kinds) + 1,
{
    lemma_bottom_level(kinds);
    let s = scan_of(kinds);
    assert(kinds.push(kind).drop_last() =~= kinds);
    lemma_ops_last(s.levels);
    lemma_ops_push(s.levels, Level { ops: 0, postfix: s.after_value });
    lemma_ops_push(s.levels, Level { ops: 0, postfix: false });
}

/// Each of these tokens, and no other, makes a source one deeper: the infix operators, `as`, `.`
/// and `?`, and every opening bracket.
pub proof fn law_what_makes_a_source_deeper(kinds: Seq<u16>, kind: u16)
    ensures
        ({
            let deeper = kind == PLUS || kind == MINUS || kind == STAR || kind == PIPE_PIPE || kind
                == AMP_AMP || kind == EQ_EQ || kind == BANG_EQ || kind == LT || kind == LT_EQ
                || kind == GT || kind == GT_EQ || kind == AS_KW || kind == DOT || kind == QUESTION
                || kind == L_PAREN || kind == L_BRACKET || kind == L_BRACE;
            if deeper {
                depth_after(kinds.push(kind)) == depth_after(kinds) + 1
            } else {
                depth_after(kinds.push(kind)) <= depth_after(kinds)
            }
        }),
{
    lemma_bottom_level(kinds);
    if chain_operator(kind) || kind == L_PAREN || kind == L_BRACKET || kind == L_BRACE {
        law_operator_or_bracket_adds_one(kinds, kind);
    } else {
        let levels = scan_of(kinds).levels;
        assert(kinds.push(kind).drop_last() =~= kinds);
        lemma_ops_last(levels);
        if levels.len() > 1 {
            lemma_ops_last(levels.drop_last());
        }
        lemma_ops_push(Seq::<Level>::empty(), Level { ops: 0, postfix: false });
        assert(bottom() =~= Seq::<Level>::empty().push(Level { ops: 0, postfix: false }));
        lemma_ops_last(bottom());
        lemma_ops_last(closed(levels));
    }
}

/// A source of fewer tokens than the maximum depth is never refused.
pub proof fn law_short_sources_are_never_refused(kinds: Seq<u16>)
    requires
        kinds.len() < MAX_STRUCTURAL_DEPTH,
    ensures
        source_depth(kinds) <= MAX_STRUCTURAL_DEPTH,
{
    lemma_peak_is_bounded(kinds);
    links::law_small_sources_are_not_strained(kinds);
}

proof fn lemma_peak_is_bounded(kinds: Seq<u16>)
    ensures
        depth_after(kinds) <= kinds.len() + 1,
        peak_depth(kinds) <= kinds.len() + 1,
    decreases kinds.len(),
{
    if kinds.len() == 0 {
        lemma_ops_push(Seq::<Level>::empty(), Level { ops: 0, postfix: false });
        assert(bottom() =~= Seq::<Level>::empty().push(Level { ops: 0, postfix: false }));
    } else {
        lemma_peak_is_bounded(kinds.drop_last());
        law_what_makes_a_source_deeper(kinds.drop_last(), kinds.last());
        assert(kinds.drop_last().push(kinds.last()) =~= kinds);
    }
}

/// Comments and white space do not count.
pub proof fn law_trivia_is_free(kinds: Seq<u16>, kind: u16)
    requires
        trivia(kind),
    ensures
        depth_after(kinds.push(kind)) == depth_after(kinds),
{
    assert(kinds.push(kind).drop_last() =~= kinds);
}

/// A bracket that closes a call or an index leaves one unit on the enclosing expression:
/// the depth is then one more than before the bracket opened. Any other round or square
/// bracket leaves none. What stood between them does not matter.
pub proof fn law_closing_banks_a_call(kinds: Seq<u16>, kind: u16)
    requires
        kind == R_PAREN || kind == R_BRACKET,
        scan_of(kinds).levels.len() > 1,
    ensures
        ({
            let levels = scan_of(kinds).levels;
            depth_after(kinds.push(kind)) == charge(levels.drop_last()) + (if levels.last().postfix {
                1nat
            } else {
                0nat
            })
        }),
{
    assert(kinds.push(kind).drop_last() =~= kinds);
    let levels = scan_of(kinds).levels;
    lemma_ops_last(levels.drop_last());
}

/// The end of a statement clears the chain of the innermost level and touches no other.
pub proof fn law_statement_end_clears(kinds: Seq<u16>)
    ensures
        depth_after(kinds.push(SEMICOLON)) + scan_of(kinds).levels.last().ops == depth_after(kinds),
{
    lemma_bottom_level(kinds);
    assert(kinds.push(SEMICOLON).drop_last() =~= kinds);
    lemma_ops_last(scan_of(kinds).levels);
}

/// A chain of `n` operators in one expression, `x op x op .. x`, has depth at least
/// `n + 1`: with the maximum many operators it is refused.
pub proof fn law_long_chains_are_deep(op: u16, n: nat)
    requires
        chain_operator(op),
    ensures
        depth_after(chain(op, n)) == n + 1,
        n >= MAX_STRUCTURAL_DEPTH ==> peak_depth(chain(op, n)) > MAX_STRUCTURAL_DEPTH,
    decreases n,
{
    let k = chain(op, n);
    lemma_bottom_level(k);
    if n == 0 {
        assert(k.drop_last() =~= Seq::<u16>::empty());
        reveal_with_fuel(scan_of, 2);
        lemma_ops_push(Seq::<Level>::empty(), Level { ops: 0, postfix: false });
        assert(bottom() =~= Seq::<Level>::empty().push(Level { ops: 0, postfix: false }));
    } else {
        let m = (n - 1) as nat;
        law_long_chains_are_deep(op, m);
        let j = chain(op, m);
        law_operator_or_bracket_adds_one(j, op);
        assert(k.drop_last() =~= j.push(op));
        assert(k.last() == IDENT);
    }
    lemma_peak_iff_some_prefix(k);
    assert(k.take(k.len() as int) =~= k);
}

/// The tokens of `x op x op .. x` with `n` operators.
pub open spec fn chain(op: u16, n: nat) -> Seq<u16>
    decreases n,
{
    if n == 0 {
        seq![IDENT]
    } else {
        chain(op, (n - 1) as nat).push(op).push(IDENT)
    }
}

// ---------------------------------------------------------------------------
// Scan
// ---------------------------------------------------------------------------

pub open spec fn levels_view(levels: Seq<(usize, bool)>) -> Seq<Level> {
    Seq::new(levels.len(), |i: int| Level { ops: levels[i].0 as nat, postfix: levels[i].1 })
}

pub(crate) fn is_trivia(kind: u16) -> (r: bool)
    ensures
        r == trivia(kind),
{
    kind == WHITESPACE || kind == LINE_COMMENT || kind == BLOCK_COMMENT
}

pub(crate) fn is_chain_operator(kind: u16) -> (r: bool)
    ensures
        r == chain_operator(kind),
{
    kind == PLUS || kind == MINUS || kind == STAR || kind == PIPE_PIPE || kind == AMP_AMP || kind
        == EQ_EQ || kind == BANG_EQ || kind == LT || kind == LT_EQ || kind == GT || kind == GT_EQ
        || kind == AS_KW || kind == DOT || kind == QUESTION
}

pub(crate) fn is_value_end(kind: u16) -> (r: bool)
    ensures
        r == ends_value(kind),
{
    kind == IDENT || kind == R_PAREN || kind == R_BRACKET || kind == R_BRACE || kind == INT_LIT
        || kind == HEX_LIT || kind == OCT_LIT || kind == BIN_LIT || kind == STRING_LIT || kind
        == TRUE_KW || kind == FALSE_KW
}

/// Adds one chain operator to the innermost level.
fn bank(levels: &mut Vec<(usize, bool)>)
    requires
        old(levels).len() > 0,
        old(levels)@.last().0 < usize::MAX,
    ensures
        levels_view(final(levels)@) == banked(levels_view(old(levels)@)),
{
    let n: usize = levels.len() - 1;
    let (ops, postfix) = levels[n];
    levels.set(n, (ops + 1, postfix));
    assert(levels_view(levels@) =~= banked(levels_view(old(levels)@)));
}

/// Clears the chain of the innermost level and returns what it held.
fn clear(levels: &mut Vec<(usize, bool)>) -> (r: usize)
    requires
        old(levels).len() > 0,
    ensures
        levels_view(final(levels)@) == cleared(levels_view(old(levels)@)),
        r == levels_view(old(levels)@).last().ops,
{
    let n: usize = levels.len() - 1;
    let (ops, postfix) = levels[n];
    levels.set(n, (0, postfix));
    assert(levels_view(levels@) =~= cleared(levels_view(old(levels)@)));
    ops
}

/// The greatest depth charged in a source with the tokens `kinds`.
fn peak_of_tokens(kinds: &Vec<u16>) -> (r: usize)
    ensures
        r == peak_depth(kinds@),
{
    let mut levels: Vec<(usize, bool)> = Vec::new();
    levels.push((0, false));
    let mut sum_ops: usize = 0;
    let mut peak: usize = 1;
    let mut after_value: bool = false;
    let mut i: usize = 0;
    proof {
        lemma_ops_push(Seq::<Level>::empty(), Level { ops: 0, postfix: false });
        assert(bottom() =~= Seq::<Level>::empty().push(Level { ops: 0, postfix: false }));
        assert(levels_view(levels@) =~= bottom());
        assert(kinds@.take(0) =~= Seq::<u16>::empty());
    }
    while i < kinds.len()
        invariant
            i <= kinds.len(),
            scan_of(kinds@.take(i as int)) == (Scan {
                levels: levels_view(levels@),
                after_value,
            }),
            sum_ops == ops_sum(levels_view(levels@)),
            peak == peak_depth(kinds@.take(i as int)),
            levels.len() + sum_ops <= peak <= MAX_STRUCTURAL_DEPTH,
        decreases kinds.len() - i,
    {
        let kind: u16 = kinds[i];
        let ghost so_far = kinds@.take(i as int);
        let ghost next = kinds@.take(i + 1);
        let ghost before = levels_view(levels@);
        proof {
            assert(next.drop_last() =~= so_far);
            lemma_bottom_level(so_far);
            lemma_ops_last(before);
            lemma_bottom_level(next);
        }
        if !is_trivia(kind) {
            if kind == L_PAREN || kind == L_BRACKET {
                levels.push((0, after_value));
                proof {
                    let l = Level { ops: 0, postfix: after_value };
                    assert(levels_view(levels@) =~= before.push(l));
                    lemma_ops_push(before, l);
                }
            } else if kind == L_BRACE {
                levels.push((0, false));
                proof {
                    let l = Level { ops: 0, postfix: false };
                    assert(levels_view(levels@) =~= before.push(l));
                    lemma_ops_push(before, l);
                }
            } else if kind == R_PAREN || kind == R_BRACKET || kind == R_BRACE {
                let n: usize = levels.len() - 1;
                let (ops, postfix) = levels[n];
                let ghost outer = before.drop_last();
                levels.pop();
                proof {
                    assert(levels_view(levels@) =~= outer);
                }
                sum_ops = sum_ops - ops;
                if levels.len() == 0 {
                    levels.push((0, false));
                    proof {
                        assert(levels_view(levels@) =~= bottom());
                        lemma_ops_push(outer, Level { ops: 0, postfix: false });
                        assert(bottom() =~= outer.push(Level { ops: 0, postfix: false }));
                    }
                } else if postfix {
                    proof {
                        lemma_ops_last(outer);
                    }
                    bank(&mut levels);
                    sum_ops = sum_ops + 1;
                }
                assert(levels_view(levels@) == closed(before));
                if kind == R_BRACE {
                    proof {
                        lemma_ops_last(closed(before));
                    }
                    let banked_ops: usize = clear(&mut levels);
                    sum_ops = sum_ops - banked_ops;
                }
            } else if kind == SEMICOLON {
                let banked_ops: usize = clear(&mut levels);
                sum_ops = sum_ops - banked_ops;
            } else if is_chain_operator(kind) {
                bank(&mut levels);
                sum_ops = sum_ops + 1;
            }
            after_value = is_value_end(kind);
            let cur: usize = levels.len() + sum_ops;
            assert(cur == depth_after(next));
            if cur > peak {
                peak = cur;
            }
            if cur > MAX_STRUCTURAL_DEPTH {
                proof {
                    lemma_peak_stays(kinds@, i + 1);
                }
                return cur;
            }
        }
        i = i + 1;
    }
    assert(kinds@.take(kinds@.len() as int) =~= kinds@);
    peak
}

/// Once the maximum is exceeded, what follows no longer counts.
proof fn lemma_peak_stays(kinds: Seq<u16>, n: int)
    requires
        0 <= n <= kinds.len(),
        peak_depth(kinds.take(n)) > MAX_STRUCTURAL_DEPTH,
    ensures
        peak_depth(kinds) == peak_depth(kinds.take(n)),
    decreases kinds.len(),
{
    if n == kinds.len() {
        assert(kinds.take(n) =~= kinds);
    } else {
        assert(kinds.drop_last().take(n) =~= kinds.take(n));
        lemma_peak_stays(kinds.drop_last(), n);
    }
}

/// The structural depth of a source with the tokens `kinds`.
pub fn depth_of_tokens(kinds: &Vec<u16>) -> (r: usize)
    ensures
        r == source_depth(kinds@),
{
    let peak: usize = peak_of_tokens(kinds);
    if peak > MAX_STRUCTURAL_DEPTH {
        return peak;
    }
    if is_strained(kinds) {
        MAX_STRUCTURAL_DEPTH + 1
    } else {
        peak
    }
}

/// The structural depth of a source text.
pub fn structural_depth(source: &str) -> (r: usize)
    ensures
        r == source_depth(token_kinds(source@)),
{
    depth_of_tokens(&lex(source))
}

/// Whether a source text is too deep to be parsed.
pub fn is_over_max_depth(source: &str) -> (r: bool)
    ensures
        r == too_deep(source@),
{
    structural_depth(source) > MAX_STRUCTURAL_DEPTH
}

// ---------------------------------------------------------------------------
// Laws of the tokens
// ---------------------------------------------------------------------------

/// White space and comments leave the scan as it was, and so change nothing of what follows them.
pub proof fn law_trivia_changes_nothing(kinds: Seq<u16>, rest: u16)
    ensures
        scan_of(kinds.push(WHITESPACE)) == scan_of(kinds),
        scan_of(kinds.push(LINE_COMMENT)) == scan_of(kinds),
        scan_of(kinds.push(BLOCK_COMMENT)) == scan_of(kinds),
        depth_after(kinds.push(WHITESPACE).push(rest)) == depth_after(kinds.push(rest)),
{
    assert(kinds.push(WHITESPACE).drop_last() =~= kinds);
    assert(kinds.push(LINE_COMMENT).drop_last() =~= kinds);
    assert(kinds.push(BLOCK_COMMENT).drop_last() =~= kinds);
    assert(scan_of(kinds.push(WHITESPACE)) == scan_of(kinds));
    let longer = kinds.push(WHITESPACE).push(rest);
    assert(longer.drop_last() =~= kinds.push(WHITESPACE));
    assert(longer.last() == rest);
    assert(kinds.push(rest).drop_last() =~= kinds);
    assert(kinds.push(rest).last() == rest);
    assert(scan_of(longer) == scan_of(kinds.push(rest)));
}

/// Whether a value can end with this token.
pub open spec fn value_end(kind: u16) -> bool {
    kind == IDENT || kind == INT_LIT || kind == HEX_LIT || kind == OCT_LIT || kind == BIN_LIT || kind
        == STRING_LIT || kind == TRUE_KW || kind == FALSE_KW || kind == R_PAREN || kind == R_BRACKET
        || kind == R_BRACE
}

/// A round or square bracket behind a name, a literal or a closing bracket is a call or an index:
/// it leaves the expression one deeper once it is closed. Anywhere else it leaves nothing, and a
/// brace never does.
pub proof fn law_only_calls_and_indices_are_banked(kinds: Seq<u16>, kind: u16)
    requires
        kind != WHITESPACE,
        kind != LINE_COMMENT,
        kind != BLOCK_COMMENT,
    ensures
        ({
            let at = kinds.push(kind);
            let more = if value_end(kind) {
                1int
            } else {
                0
            };
            &&& depth_after(at.push(L_PAREN)) == depth_after(at) + 1
            &&& depth_after(at.push(L_PAREN).push(R_PAREN)) == depth_after(at) + more
            &&& depth_after(at.push(L_BRACKET).push(R_BRACKET)) == depth_after(at) + more
            &&& depth_after(at.push(L_BRACE).push(R_BRACE)) == depth_after(at) - scan_of(
                at,
            ).levels.last().ops
        }),
{
    let at = kinds.push(kind);
    assert(at.drop_last() =~= kinds);
    lemma_bottom_level(at);
    let s = scan_of(at);
    lemma_ops_last(s.levels);
    lemma_open_and_close(at, L_PAREN, R_PAREN);
    lemma_open_and_close(at, L_BRACKET, R_BRACKET);
    lemma_open_and_close(at, L_BRACE, R_BRACE);
    law_operator_or_bracket_adds_one(at, L_PAREN);
}

proof fn lemma_open_and_close(at: Seq<u16>, opener: u16, closer: u16)
    requires
        opener == L_PAREN && closer == R_PAREN || opener == L_BRACKET && closer == R_BRACKET
            || opener == L_BRACE && closer == R_BRACE,
    ensures
        ({
            let s = scan_of(at);
            let after = scan_of(at.push(opener).push(closer)).levels;
            if opener == L_BRACE {
                after == cleared(s.levels)
            } else if s.after_value {
                after == banked(s.levels)
            } else {
                after == s.levels
            }
        }),
{
    let s = scan_of(at);
    lemma_bottom_level(at);
    let open = at.push(opener);
    assert(open.drop_last() =~= at);
    assert(open.push(closer).drop_last() =~= open);
    assert(scan_of(open).levels.drop_last() =~= s.levels);
}

/// A source starts with a depth of one, and what closes nothing brings it back to that.
pub proof fn law_sources_start_at_the_bottom(closer: u16)
    requires
        closer == R_PAREN || closer == R_BRACKET || closer == R_BRACE,
    ensures
        depth_after(Seq::<u16>::empty()) == 1,
        depth_after(seq![closer]) == 1,
{
    let none = Seq::<u16>::empty();
    lemma_ops_push(Seq::<Level>::empty(), Level { ops: 0, postfix: false });
    assert(bottom() =~= Seq::<Level>::empty().push(Level { ops: 0, postfix: false }));
    assert(seq![closer].drop_last() =~= none);
    reveal_with_fuel(scan_of, 2);
    lemma_ops_last(bottom());
    assert(scan_of(seq![closer]).levels =~= bottom());
}

/// The depth that is told is the greatest after any prefix of the tokens, where that is no more
/// than five hundred and twelve; beyond, it is the depth at which the maximum was first exceeded.
pub proof fn law_the_greatest_depth_is_told(kinds: Seq<u16>)
    ensures
        exists|n: int|
            0 <= n <= kinds.len() && peak_depth(kinds) == #[trigger] depth_after(kinds.take(n)),
        peak_depth(kinds) <= 512 ==> forall|n: int|
            0 <= n <= kinds.len() ==> #[trigger] depth_after(kinds.take(n)) <= peak_depth(kinds),
        peak_depth(kinds) > 512 ==> exists|n: int|
            0 <= n <= kinds.len() && peak_depth(kinds) == #[trigger] depth_after(kinds.take(n))
                && forall|m: int| 0 <= m < n ==> #[trigger] depth_after(kinds.take(m)) <= 512,
    decreases kinds.len(),
{
    assert(kinds.take(kinds.len() as int) =~= kinds);
    if kinds.len() == 0 {
        law_sources_start_at_the_bottom(R_PAREN);
        assert(kinds =~= Seq::<u16>::empty());
        assert forall|n: int| 0 <= n <= kinds.len() implies #[trigger] depth_after(kinds.take(n))
            <= 1 by {
            assert(kinds.take(n) =~= kinds);
        }
        assert(depth_after(kinds.take(0)) == 1);
    } else {
        let less = kinds.drop_last();
        law_the_greatest_depth_is_told(less);
        assert forall|n: int| 0 <= n <= less.len() implies #[trigger] kinds.take(n) == less.take(
            n,
        ) by {
            assert(kinds.take(n) =~= less.take(n));
        }
        let n = choose|n: int|
            0 <= n <= less.len() && peak_depth(less) == #[trigger] depth_after(less.take(n));
        assert(kinds.take(n) == less.take(n));
        if peak_depth(less) <= 512 {
            assert forall|m: int| 0 <= m < kinds.len() implies #[trigger] depth_after(kinds.take(m))
                <= peak_depth(less) by {
                assert(kinds.take(m) == less.take(m));
            }
            let last = kinds.len() as int;
            assert(depth_after(kinds.take(last)) == depth_after(kinds));
        } else {
            let k = choose|k: int|
                0 <= k <= less.len() && peak_depth(less) == #[trigger] depth_after(less.take(k))
                    && forall|m: int| 0 <= m < k ==> #[trigger] depth_after(less.take(m)) <= 512;
            assert(kinds.take(k) == less.take(k));
            assert forall|m: int| 0 <= m < k implies #[trigger] depth_after(kinds.take(m)) <= 512 by {
                assert(kinds.take(m) == less.take(m));
            }
        }
    }
}

/// A source is too deep exactly where its depth is more than five hundred and twelve, and one that
/// strains the parser has a depth of one more than that.
pub proof fn law_the_maximum_depth(source: Seq<char>)
    ensures
        ({
            let kinds = token_kinds(source);
            &&& too_deep(source) <==> source_depth(kinds) > 512
            &&& !links::strained(kinds) ==> source_depth(kinds) == peak_depth(kinds)
            &&& links::strained(kinds) && peak_depth(kinds) <= 512 ==> source_depth(kinds) == 513
            &&& peak_depth(kinds) > 512 ==> source_depth(kinds) == peak_depth(kinds)
        }),
{
}

} // verus!
