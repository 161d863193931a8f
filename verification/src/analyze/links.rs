//! The second half of the depth guard: what the depth of the token stream does not show.
//!
//! The parser must neither reach a depth of calls that exhausts the stack nor build a tree that
//! is nested so deep that hashing and releasing it do. A tree is nested to the length of its
//! chains: every operator, member access, call and index wraps all that stands to the left of it
//! in its expression.
//!
//! Where the parser does not reach its own limit on recursion, it takes an expression as it is
//! written: it leaves a construct at the first token that does not belong to it, and consumes
//! none that it does not want. Then the brackets that are open in the parser are among those
//! that are open here, and what nests in each of them can be counted, see [`Group`]. A source
//! is *calm* where these counts show that the limit is out of reach and the tree is not tall.
//!
//! At its limit the parser takes any token for an operand and goes on, so that nothing can be
//! said of where an expression ends. A source that is not calm must therefore be small: all its
//! operators and brackets together are few.
//!
//! Two constructs recurse without regard to the parser's limit, and are counted apart: the
//! negations and brackets of a version in a `pragma`, and modules and contracts, which an error
//! can leave open.

use vstd::prelude::*;

use super::depth;
use super::depth::{is_chain_operator, is_trivia, MAX_STRUCTURAL_DEPTH};
use super::tokens::{
    AS_KW, ASSERT_KW, BANG, BYTES_KW, COLON, COMMA, CONTRACT_KW, DEFAULT_KW, DISCLOSE_KW, DOT,
    ELSE_KW, EQ, FAT_ARROW, FOLD_KW, FOR_KW, GT, GT_EQ, IDENT, IF_KW, INTEGER_KW, INT_LIT, LT,
    LT_EQ, L_BRACE, L_BRACKET, L_PAREN, MAP_KW, MINUS_EQ, MODULE_KW, OPAQUE_KW, PAD_KW, PLUS_EQ,
    PRAGMA_KW, QUESTION, R_BRACE, R_BRACKET, R_PAREN, SEMICOLON, SLICE_KW, UINT_KW, UNSIGNED_KW,
    VECTOR_KW,
};

verus! {

/// The most operators and brackets of a source that is not calm. With the parser's own limit on
/// recursion they keep its tree well below the depth at which releasing it exhausts the stack.
pub const MAX_LINKS: usize = 1024;

/// The most recursion of a calm source. It sits below the parser's own limit.
pub const MAX_RECURSION: usize = 240;

/// The most a tree of a calm source is nested.
pub const MAX_HEIGHT: usize = 2000;

/// How far modules and contracts may be nested where they are many. An error leaves no more than
/// these open, and the parser stops at 256 errors.
pub const MAX_NEST: usize = 3;

/// Where the counts stop. It sits above all that a calm source can have.
pub const CAP: usize = 4000;

// ---------------------------------------------------------------------------
// What is counted in a bracket
// ---------------------------------------------------------------------------

/// An open bracket, or the whole source. Each count is of the expression or statement that is
/// being read in it, and starts anew where what was counted has ended.
#[derive(Clone, Copy)]
pub struct Group {
    pub opener: u16,
    /// The nodes that can wrap one another: operators, calls, indices and the like.
    pub links: usize,
    /// The levels of precedence that can be open, from binary operators.
    pub ops: usize,
    /// What nests to the right up to the end of a list's item: negations, comparisons, casts
    /// and closures.
    pub steps: usize,
    /// What can nest up to the end of a statement: conditionals, and constructs that lack their
    /// bracket.
    pub held: usize,
    /// Angle brackets that can still be open.
    pub angles: usize,
    /// Branches and loops whose last statement is not over.
    pub ladder: usize,
    /// The height of the tallest bracket that was closed in the expression.
    pub kid: usize,
    /// The greatest height before the counts last started anew.
    pub most: usize,
}

/// The greater of two counts.
pub open spec fn larger(a: usize, b: usize) -> usize {
    if a < b {
        b
    } else {
        a
    }
}

/// A count, no further than it goes.
pub open spec fn capped(n: int) -> usize {
    if n < CAP {
        n as usize
    } else {
        CAP
    }
}

/// A bracket that has just been opened.
pub open spec fn fresh(opener: u16) -> Group {
    Group {
        opener,
        links: 0,
        ops: 0,
        steps: 0,
        held: 0,
        angles: 0,
        ladder: 0,
        kid: 0,
        most: 0,
    }
}

/// The most calls of the parser on one another that what stands in this bracket can keep open.
pub open spec fn recursion(g: Group) -> nat {
    let own: nat = if g.opener == L_BRACE {
        3
    } else {
        1
    };
    own + g.ops as nat + g.steps as nat + g.held as nat + g.angles as nat + g.ladder as nat
}

/// The most nodes that can nest in what is being read in this bracket.
pub open spec fn height(g: Group) -> nat {
    g.links as nat + g.held as nat + 3 * g.angles as nat + g.ladder as nat + g.kid as nat
}

/// The bracket where an item of its list has ended.
pub open spec fn item_ended(g: Group) -> Group {
    Group {
        links: 0,
        ops: 0,
        steps: 0,
        kid: 0,
        most: larger(g.most, capped(height(g) as int)),
        ..g
    }
}

/// The bracket where a block or a literal has ended and the expression does not go on.
pub open spec fn part_ended(g: Group) -> Group {
    Group { ladder: 0, ..item_ended(g) }
}

/// The bracket where a statement has ended.
pub open spec fn all_ended(g: Group) -> Group {
    Group { held: 0, angles: 0, ladder: 0, ..item_ended(g) }
}

/// The bracket around `child` once that is closed.
pub open spec fn around(g: Group, child: Group) -> Group {
    Group {
        kid: larger(
            g.kid,
            capped(4 + larger(child.most, capped(height(child) as int))),
        ),
        ..g
    }
}

/// The tokens with which an expression or a branch can go on behind a brace.
pub open spec fn goes_on(kind: u16) -> bool {
    ||| depth::chain_operator(kind)
    ||| depth::closes(kind)
    ||| kind == L_PAREN
    ||| kind == L_BRACKET
    ||| kind == COLON
    ||| kind == COMMA
    ||| kind == SEMICOLON
    ||| kind == EQ
    ||| kind == PLUS_EQ
    ||| kind == MINUS_EQ
    ||| kind == FAT_ARROW
    ||| kind == ELSE_KW
}

/// How many tokens of `slice<n>` have been read; 0 outside of it.
pub open spec fn slice_after(stage: u16, kind: u16) -> u16 {
    if kind == SLICE_KW {
        1
    } else if stage == 1 && kind == LT {
        2
    } else if stage == 2 && (kind == INT_LIT || kind == IDENT) {
        3
    } else if stage == 3 && kind == GT {
        4
    } else {
        0
    }
}

/// Whether a `slice` goes on otherwise than with `<n>` and a bracket.
pub open spec fn broken_slice(stage: u16, kind: u16) -> bool {
    stage > 0 && slice_after(stage, kind) != stage + 1 && !((stage == 1 || stage == 4) && kind
        == L_PAREN)
}

/// Whether the construct that `prev` begins lacks the bracket that belongs behind it. Nothing
/// but the end of the statement is sure to end such a construct, and it takes a closing bracket
/// that closes another.
pub open spec fn bare(prev: u16, kind: u16) -> bool {
    ||| kind != LT && (prev == VECTOR_KW || prev == DEFAULT_KW || prev == UINT_KW || prev
        == OPAQUE_KW)
    ||| prev == BYTES_KW && kind != LT && kind != L_BRACKET
    ||| prev == UNSIGNED_KW && kind != INTEGER_KW
    ||| prev == INTEGER_KW && kind != L_BRACKET
    ||| kind != L_PAREN && (prev == ASSERT_KW || prev == MAP_KW || prev == FOLD_KW || prev
        == DISCLOSE_KW || prev == PAD_KW || prev == IF_KW || prev == FOR_KW)
}

/// The bracket as the next token finds it.
pub open spec fn readied(g: Group, prev: u16, lacking: bool, kind: u16) -> Group {
    let h = if prev == SEMICOLON && kind != ELSE_KW {
        all_ended(g)
    } else if prev == R_BRACE && !goes_on(kind) {
        part_ended(g)
    } else {
        g
    };
    if lacking {
        Group { held: capped(h.held + 6), ..h }
    } else {
        h
    }
}

/// The bracket with one link more.
pub open spec fn linked(g: Group) -> Group {
    Group { links: capped(g.links + 1), ..g }
}

/// The bracket after an operator.
pub open spec fn operated(g: Group, kind: u16) -> Group {
    let h = linked(g);
    if kind == DOT {
        h
    } else if kind == QUESTION {
        Group { held: capped(h.held + 1), ..h }
    } else if kind == LT {
        Group { steps: capped(h.steps + 1), angles: capped(h.angles + 1), ..h }
    } else if kind == GT {
        Group {
            steps: capped(h.steps + 1),
            angles: if h.angles > 0 {
                (h.angles - 1) as usize
            } else {
                0
            },
            ..h
        }
    } else if kind == LT_EQ || kind == GT_EQ || kind == AS_KW {
        Group { steps: capped(h.steps + 1), ..h }
    } else {
        Group {
            ops: if h.ops < 5 {
                (h.ops + 1) as usize
            } else {
                5
            },
            ..h
        }
    }
}

/// The bracket after a token that neither opens nor closes one, nor ends an item or statement.
pub open spec fn charged(g: Group, kind: u16) -> Group {
    if depth::chain_operator(kind) {
        operated(g, kind)
    } else if kind == BANG {
        Group { steps: capped(g.steps + 1), ..linked(g) }
    } else if kind == FAT_ARROW {
        Group { steps: capped(g.steps + 6), ..linked(linked(g)) }
    } else if kind == IF_KW || kind == ELSE_KW || kind == FOR_KW {
        Group { ladder: capped(g.ladder + 1), ..g }
    } else {
        g
    }
}

// ---------------------------------------------------------------------------
// The walk over a source
// ---------------------------------------------------------------------------

/// Where the walk stands.
pub struct Walk {
    /// The open brackets, outermost first, below them the whole source.
    pub groups: Seq<Group>,
    /// The last significant token.
    pub prev: u16,
    /// How much of `slice<n>` has just been read.
    pub slice: u16,
    /// The recursion and the height that are kept for good: a construct that lacks its bracket,
    /// and an error in a contract, can leave open all that is open around them, whatever closing
    /// brackets follow.
    pub kept_recursion: usize,
    pub kept_height: usize,
    /// The most brackets in which a module or contract began, with the whole source.
    pub nest: nat,
}

pub open spec fn opens(kind: u16) -> bool {
    kind == L_PAREN || kind == L_BRACKET || kind == L_BRACE
}

/// The token that opens what `closer` closes.
pub open spec fn opener_of(closer: u16) -> u16 {
    if closer == R_PAREN {
        L_PAREN
    } else if closer == R_BRACKET {
        L_BRACKET
    } else {
        L_BRACE
    }
}

pub open spec fn total_recursion(groups: Seq<Group>) -> nat
    decreases groups.len(),
{
    if groups.len() == 0 {
        0
    } else {
        total_recursion(groups.drop_last()) + recursion(groups.last())
    }
}

pub open spec fn total_height(groups: Seq<Group>) -> nat
    decreases groups.len(),
{
    if groups.len() == 0 {
        0
    } else {
        total_height(groups.drop_last()) + 4 + height(groups.last())
    }
}

/// The brackets with another innermost one.
pub open spec fn topped(groups: Seq<Group>, g: Group) -> Seq<Group> {
    groups.drop_last().push(g)
}

/// The brackets with the innermost one closed.
pub open spec fn folded(groups: Seq<Group>) -> Seq<Group> {
    topped(groups.drop_last(), around(groups.drop_last().last(), groups.last()))
}

/// The brackets with those closed that lie in the nearest `opener`.
pub open spec fn down_to(groups: Seq<Group>, opener: u16) -> Seq<Group>
    decreases groups.len(),
{
    if groups.len() <= 1 || groups.last().opener == opener {
        groups
    } else {
        down_to(folded(groups), opener)
    }
}

/// Whether there is such a bracket to close.
pub open spec fn holds(groups: Seq<Group>, opener: u16) -> bool {
    exists|i: int| 0 < i < groups.len() && (#[trigger] groups[i]).opener == opener
}

/// The brackets after a closing one: it closes the nearest that it fits, and all in that. A
/// brace that fits none still ends what lies in the source itself.
pub open spec fn closed(groups: Seq<Group>, closer: u16) -> Seq<Group> {
    let opener = opener_of(closer);
    if holds(groups, opener) {
        folded(down_to(groups, opener))
    } else if opener == L_BRACE {
        down_to(groups, L_BRACE)
    } else {
        groups
    }
}

/// The brackets after one significant token, as it finds them.
pub open spec fn groups_after(groups: Seq<Group>, kind: u16) -> Seq<Group> {
    if kind == L_BRACE {
        groups.push(fresh(kind))
    } else if opens(kind) {
        topped(groups, linked(groups.last())).push(fresh(kind))
    } else if depth::closes(kind) {
        closed(groups, kind)
    } else if kind == COMMA {
        topped(groups, item_ended(groups.last()))
    } else if kind == SEMICOLON {
        down_to(groups, L_BRACE)
    } else {
        topped(groups, charged(groups.last(), kind))
    }
}

/// Whether the construct before `kind` lacks its bracket.
pub open spec fn lacks(w: Walk, kind: u16) -> bool {
    bare(w.prev, kind) || broken_slice(w.slice, kind)
}

/// The brackets as the next token finds them.
pub open spec fn found(w: Walk, kind: u16) -> Seq<Group> {
    topped(w.groups, readied(w.groups.last(), w.prev, lacks(w, kind), kind))
}

/// The walk after one significant token.
pub open spec fn walked(w: Walk, kind: u16) -> Walk {
    let groups = found(w, kind);
    let loose = kind == CONTRACT_KW || lacks(w, kind);
    Walk {
        groups: groups_after(groups, kind),
        prev: kind,
        slice: slice_after(w.slice, kind),
        kept_recursion: if loose {
            capped(w.kept_recursion + total_recursion(groups) + 4)
        } else {
            w.kept_recursion
        },
        kept_height: if loose {
            capped(w.kept_height + total_height(groups) + 4)
        } else {
            w.kept_height
        },
        nest: if (kind == MODULE_KW || kind == CONTRACT_KW) && w.nest < groups.len() {
            groups.len()
        } else {
            w.nest
        },
    }
}

pub open spec fn unwalked() -> Walk {
    Walk {
        groups: seq![fresh(L_BRACE)],
        prev: SEMICOLON,
        slice: 0,
        kept_recursion: 0,
        kept_height: 0,
        nest: 0,
    }
}

/// The walk over the tokens `kinds`.
pub open spec fn walk_of(kinds: Seq<u16>) -> Walk
    decreases kinds.len(),
{
    if kinds.len() == 0 {
        unwalked()
    } else {
        let before = walk_of(kinds.drop_last());
        if depth::trivia(kinds.last()) {
            before
        } else {
            walked(before, kinds.last())
        }
    }
}

/// Whether the parser is far from its limit and the tree is not tall where the walk stands.
pub open spec fn calm_at(w: Walk) -> bool {
    &&& w.kept_recursion + total_recursion(w.groups) <= MAX_RECURSION
    &&& w.kept_height + total_height(w.groups) <= MAX_HEIGHT
}

/// Whether that holds all the way through `kinds`.
pub open spec fn calm(kinds: Seq<u16>) -> bool
    decreases kinds.len(),
{
    calm_at(walk_of(kinds)) && (kinds.len() == 0 || calm(kinds.drop_last()))
}

// ---------------------------------------------------------------------------
// What is counted over a source
// ---------------------------------------------------------------------------

/// Whether a token is an operator or opens a bracket.
pub open spec fn counts(kind: u16) -> bool {
    depth::chain_operator(kind) || opens(kind)
}

/// The operators and opening brackets among `kinds`.
pub open spec fn link_count(kinds: Seq<u16>) -> nat
    decreases kinds.len(),
{
    if kinds.len() == 0 {
        0
    } else {
        link_count(kinds.drop_last()) + if counts(kinds.last()) {
            1nat
        } else {
            0
        }
    }
}

/// The modules and contracts among `kinds`.
pub open spec fn scope_count(kinds: Seq<u16>) -> nat
    decreases kinds.len(),
{
    if kinds.len() == 0 {
        0
    } else {
        scope_count(kinds.drop_last()) + if kinds.last() == MODULE_KW || kinds.last()
            == CONTRACT_KW {
            1nat
        } else {
            0
        }
    }
}

// ---------------------------------------------------------------------------
// Versions
// ---------------------------------------------------------------------------

/// The negations and brackets that are open, without the negations at the end: the term they
/// negate is complete.
pub open spec fn affirmed(marks: Seq<u16>) -> Seq<u16>
    decreases marks.len(),
{
    if marks.len() > 0 && marks.last() == BANG {
        affirmed(marks.drop_last())
    } else {
        marks
    }
}

/// The negations and brackets that are open in a version after one significant token.
pub open spec fn marked(marks: Seq<u16>, kind: u16) -> Seq<u16> {
    if kind == BANG || kind == L_PAREN {
        marks.push(kind)
    } else if kind == R_PAREN && affirmed(marks).len() > 0 {
        affirmed(affirmed(marks).drop_last())
    } else {
        affirmed(marks)
    }
}

/// The negations and brackets that are open after `kinds` in the version of a `pragma`, if there
/// is one that no semicolon has ended.
pub open spec fn marks_of(kinds: Seq<u16>) -> Option<Seq<u16>>
    decreases kinds.len(),
{
    if kinds.len() == 0 {
        None
    } else {
        let before = marks_of(kinds.drop_last());
        let kind = kinds.last();
        if depth::trivia(kind) {
            before
        } else if kind == PRAGMA_KW {
            Some(Seq::<u16>::empty())
        } else if kind == SEMICOLON {
            None
        } else {
            match before {
                Some(marks) => Some(marked(marks, kind)),
                None => None,
            }
        }
    }
}

/// Whether some version among `kinds` nests deeper than the maximum depth.
pub open spec fn version_too_deep(kinds: Seq<u16>) -> bool
    decreases kinds.len(),
{
    ||| marks_of(kinds) matches Some(marks) && marks.len() > MAX_STRUCTURAL_DEPTH
    ||| kinds.len() > 0 && version_too_deep(kinds.drop_last())
}

// ---------------------------------------------------------------------------
// The verdict
// ---------------------------------------------------------------------------

/// Whether the parser could be strained too much by a source with the tokens `kinds`.
pub open spec fn strained(kinds: Seq<u16>) -> bool {
    let many = scope_count(kinds) > MAX_STRUCTURAL_DEPTH;
    ||| version_too_deep(kinds)
    ||| (!calm(kinds) || (many && walk_of(kinds).nest > MAX_NEST)) && (link_count(kinds)
        > MAX_LINKS || many)
}

// ---------------------------------------------------------------------------
// Laws
// ---------------------------------------------------------------------------

/// Every operator and every round or square bracket is a link of the bracket it stands in,
/// whatever stands before it.
pub proof fn law_every_link_counts(w: Walk, kind: u16)
    requires
        w.groups.len() > 0,
        depth::chain_operator(kind) || kind == L_PAREN || kind == L_BRACKET,
    ensures
        ({
            let before = found(w, kind).last();
            walked(w, kind).groups[w.groups.len() - 1].links == capped(before.links + 1)
        }),
{
}

/// A source that is not refused has few operators and brackets in all, or has few links between
/// any two places where the count starts anew, and no tall brackets in one another either.
pub proof fn law_links_are_bounded(kinds: Seq<u16>, n: int, i: int)
    requires
        !strained(kinds),
        0 <= n <= kinds.len(),
        0 <= i < walk_of(kinds.take(n)).groups.len(),
    ensures
        link_count(kinds) <= MAX_LINKS || {
            let groups = walk_of(kinds.take(n)).groups;
            &&& groups[i].links <= MAX_HEIGHT
            &&& total_recursion(groups) <= MAX_RECURSION
            &&& total_height(groups) <= MAX_HEIGHT
        },
{
    if link_count(kinds) > MAX_LINKS {
        lemma_calm_prefix(kinds, n);
        lemma_height_below_total(walk_of(kinds.take(n)).groups, i);
    }
}

proof fn lemma_height_below_total(groups: Seq<Group>, i: int)
    requires
        0 <= i < groups.len(),
    ensures
        height(groups[i]) <= total_height(groups),
    decreases groups.len(),
{
    if i < groups.len() - 1 {
        lemma_height_below_total(groups.drop_last(), i);
    }
}

/// What is counted over a source are the operators and opening brackets, and the modules and
/// contracts, one by one.
pub proof fn law_tokens_are_counted(kinds: Seq<u16>, kind: u16)
    ensures
        link_count(kinds.push(kind)) == link_count(kinds) + if depth::chain_operator(kind) || kind
            == L_PAREN || kind == L_BRACKET || kind == L_BRACE {
            1nat
        } else {
            0nat
        },
        scope_count(kinds.push(kind)) == scope_count(kinds) + if kind == MODULE_KW || kind
            == CONTRACT_KW {
            1nat
        } else {
            0nat
        },
{
    assert(kinds.push(kind).drop_last() =~= kinds);
}

/// A source with few operators, brackets, modules and contracts, and no version that nests too
/// deep, is not refused, whatever else it holds; nor is a calm one, unless its modules and
/// contracts are both many and nested.
pub proof fn law_what_is_not_refused(kinds: Seq<u16>)
    ensures
        !version_too_deep(kinds) && link_count(kinds) <= MAX_LINKS && scope_count(kinds)
            <= MAX_STRUCTURAL_DEPTH ==> !strained(kinds),
        !version_too_deep(kinds) && calm(kinds) && scope_count(kinds) <= MAX_STRUCTURAL_DEPTH
            ==> !strained(kinds),
        !version_too_deep(kinds) && calm(kinds) && walk_of(kinds).nest <= MAX_NEST ==> !strained(
            kinds,
        ),
{
}

/// A source of fewer tokens than the maximum depth does not strain the parser.
pub proof fn law_small_sources_are_not_strained(kinds: Seq<u16>)
    requires
        kinds.len() <= MAX_STRUCTURAL_DEPTH,
    ensures
        !strained(kinds),
{
    lemma_counts_are_bounded(kinds);
}

proof fn lemma_counts_are_bounded(kinds: Seq<u16>)
    ensures
        link_count(kinds) <= kinds.len(),
        scope_count(kinds) <= kinds.len(),
        marks_of(kinds) matches Some(marks) ==> marks.len() <= kinds.len(),
        kinds.len() <= MAX_STRUCTURAL_DEPTH ==> !version_too_deep(kinds),
    decreases kinds.len(),
{
    if kinds.len() > 0 {
        lemma_counts_are_bounded(kinds.drop_last());
        if let Some(marks) = marks_of(kinds.drop_last()) {
            lemma_affirmed_shorter(marks);
            if affirmed(marks).len() > 0 {
                lemma_affirmed_shorter(affirmed(marks).drop_last());
            }
        }
    }
}

/// Once refused, a source stays so whatever follows.
pub proof fn law_refusals_are_final(kinds: Seq<u16>, n: int)
    requires
        0 <= n <= kinds.len(),
        strained(kinds.take(n)),
    ensures
        strained(kinds),
    decreases kinds.len(),
{
    if n == kinds.len() {
        assert(kinds.take(n) =~= kinds);
    } else {
        assert(kinds.drop_last().take(n) =~= kinds.take(n));
        law_refusals_are_final(kinds.drop_last(), n);
    }
}

/// A bracket that is closed keeps nothing open: the parser's recursion is what it was.
pub proof fn law_closed_brackets_keep_nothing_open(w: Walk, opener: u16, closer: u16)
    requires
        w.groups.len() > 0,
        opens(opener),
        depth::closes(closer),
        opener_of(closer) == opener,
    ensures
        ({
            let after = walked(walked(w, opener), closer);
            &&& after.groups.len() == w.groups.len()
            &&& total_recursion(after.groups) == total_recursion(found(w, opener))
        }),
{
    let before = found(w, opener);
    let open = walked(w, opener);
    let gs = found(open, closer);
    assert(gs.last().opener == opener);
    assert(holds(gs, opener)) by {
        assert(gs[gs.len() - 1].opener == opener);
    }
    assert(down_to(gs, opener) == gs);
    let after = walked(open, closer).groups;
    assert(after == folded(gs));
    assert(after.drop_last() =~= before.drop_last());
    assert(recursion(after.last()) == recursion(before.last()));
}

/// A number ends the negations before it: negated numbers in a row do not nest.
pub proof fn law_negated_numbers_do_not_nest(marks: Seq<u16>, kind: u16)
    requires
        kind != BANG && kind != L_PAREN && kind != R_PAREN,
    ensures
        marked(marked(marks, BANG), kind) == affirmed(marks),
        affirmed(marks).len() <= marks.len(),
{
    assert(marks.push(BANG).drop_last() =~= marks);
    lemma_affirmed_shorter(marks);
}

proof fn lemma_affirmed_shorter(marks: Seq<u16>)
    ensures
        affirmed(marks).len() <= marks.len(),
    decreases marks.len(),
{
    if marks.len() > 0 && marks.last() == BANG {
        lemma_affirmed_shorter(marks.drop_last());
    }
}

/// The tokens of `pragma name !!..` with `n` negations.
pub open spec fn negations(n: nat) -> Seq<u16>
    decreases n,
{
    if n == 0 {
        seq![PRAGMA_KW, super::tokens::IDENT]
    } else {
        negations((n - 1) as nat).push(BANG)
    }
}

/// A version with more negations on one another than the maximum depth is refused, however the
/// source goes on.
pub proof fn law_long_negations_are_refused(n: nat, rest: Seq<u16>)
    requires
        n > MAX_STRUCTURAL_DEPTH,
    ensures
        strained(negations(n) + rest),
{
    lemma_negations(n);
    let all = negations(n) + rest;
    assert(all.take(negations(n).len() as int) =~= negations(n));
    lemma_version_stays(all, negations(n).len() as int);
}

proof fn lemma_negations(n: nat)
    ensures
        marks_of(negations(n)) matches Some(marks) && marks.len() == n,
    decreases n,
{
    let k = negations(n);
    if n == 0 {
        assert(k.drop_last() =~= seq![PRAGMA_KW]);
        assert(k.drop_last().drop_last() =~= Seq::<u16>::empty());
        reveal_with_fuel(marks_of, 3);
    } else {
        lemma_negations((n - 1) as nat);
        assert(k.drop_last() =~= negations((n - 1) as nat));
    }
}

// ---------------------------------------------------------------------------
// Counting
// ---------------------------------------------------------------------------

/// The sum of two counts.
fn plus(a: usize, b: usize) -> (r: usize)
    ensures
        r == capped(a + b),
{
    if a < CAP && b < CAP && a + b < CAP {
        a + b
    } else {
        CAP
    }
}

fn greater(a: usize, b: usize) -> (r: usize)
    ensures
        r == larger(a, b),
{
    if a < b {
        b
    } else {
        a
    }
}

fn height_of(g: &Group) -> (r: usize)
    ensures
        r == capped(height(*g) as int),
{
    let angles: usize = plus(plus(g.angles, g.angles), g.angles);
    plus(plus(plus(plus(g.links, g.held), angles), g.ladder), g.kid)
}

fn recursion_of(g: &Group) -> (r: usize)
    ensures
        r == capped(recursion(*g) as int),
{
    let own: usize = if g.opener == L_BRACE {
        3
    } else {
        1
    };
    plus(plus(plus(plus(plus(own, g.ops), g.steps), g.held), g.angles), g.ladder)
}

fn new_group(opener: u16) -> (r: Group)
    ensures
        r == fresh(opener),
{
    Group {
        opener,
        links: 0,
        ops: 0,
        steps: 0,
        held: 0,
        angles: 0,
        ladder: 0,
        kid: 0,
        most: 0,
    }
}

fn end_item(g: Group) -> (r: Group)
    ensures
        r == item_ended(g),
{
    let most: usize = greater(g.most, height_of(&g));
    Group { links: 0, ops: 0, steps: 0, kid: 0, most, ..g }
}

fn is_going_on(kind: u16) -> (r: bool)
    ensures
        r == goes_on(kind),
{
    is_chain_operator(kind) || kind == R_PAREN || kind == R_BRACKET || kind == R_BRACE || kind
        == L_PAREN || kind == L_BRACKET || kind == COLON || kind == COMMA || kind == SEMICOLON
        || kind == EQ || kind == PLUS_EQ || kind == MINUS_EQ || kind == FAT_ARROW || kind
        == ELSE_KW
}

fn read_slice(stage: u16, kind: u16) -> (r: u16)
    ensures
        r == slice_after(stage, kind),
{
    if kind == SLICE_KW {
        1
    } else if stage == 1 && kind == LT {
        2
    } else if stage == 2 && (kind == INT_LIT || kind == IDENT) {
        3
    } else if stage == 3 && kind == GT {
        4
    } else {
        0
    }
}

fn is_bare(prev: u16, kind: u16) -> (r: bool)
    ensures
        r == bare(prev, kind),
{
    (kind != LT && (prev == VECTOR_KW || prev == DEFAULT_KW || prev == UINT_KW || prev
        == OPAQUE_KW)) || (prev == BYTES_KW && kind != LT && kind != L_BRACKET) || (prev
        == UNSIGNED_KW && kind != INTEGER_KW) || (prev == INTEGER_KW && kind != L_BRACKET) || (
    kind != L_PAREN && (prev == ASSERT_KW || prev == MAP_KW || prev == FOLD_KW || prev
        == DISCLOSE_KW || prev == PAD_KW || prev == IF_KW || prev == FOR_KW))
}

fn is_broken_slice(stage: u16, kind: u16) -> (r: bool)
    requires
        stage <= 4,
    ensures
        r == broken_slice(stage, kind),
{
    stage > 0 && read_slice(stage, kind) != stage + 1 && !((stage == 1 || stage == 4) && kind
        == L_PAREN)
}

fn ready(g: Group, prev: u16, lacking: bool, kind: u16) -> (r: Group)
    ensures
        r == readied(g, prev, lacking, kind),
{
    let h = if prev == SEMICOLON && kind != ELSE_KW {
        Group { held: 0, angles: 0, ladder: 0, ..end_item(g) }
    } else if prev == R_BRACE && !is_going_on(kind) {
        Group { ladder: 0, ..end_item(g) }
    } else {
        g
    };
    if lacking {
        Group { held: plus(h.held, 6), ..h }
    } else {
        h
    }
}

fn link(g: Group) -> (r: Group)
    ensures
        r == linked(g),
{
    Group { links: plus(g.links, 1), ..g }
}

fn operate(g: Group, kind: u16) -> (r: Group)
    ensures
        r == operated(g, kind),
{
    let h = link(g);
    if kind == DOT {
        h
    } else if kind == QUESTION {
        Group { held: plus(h.held, 1), ..h }
    } else if kind == LT {
        Group { steps: plus(h.steps, 1), angles: plus(h.angles, 1), ..h }
    } else if kind == GT {
        let angles: usize = if h.angles > 0 {
            h.angles - 1
        } else {
            0
        };
        Group { steps: plus(h.steps, 1), angles, ..h }
    } else if kind == LT_EQ || kind == GT_EQ || kind == AS_KW {
        Group { steps: plus(h.steps, 1), ..h }
    } else {
        let ops: usize = if h.ops < 5 {
            h.ops + 1
        } else {
            5
        };
        Group { ops, ..h }
    }
}

fn charge(g: Group, kind: u16) -> (r: Group)
    ensures
        r == charged(g, kind),
{
    if is_chain_operator(kind) {
        operate(g, kind)
    } else if kind == BANG {
        Group { steps: plus(g.steps, 1), ..link(g) }
    } else if kind == FAT_ARROW {
        Group { steps: plus(g.steps, 6), ..link(link(g)) }
    } else if kind == IF_KW || kind == ELSE_KW || kind == FOR_KW {
        Group { ladder: plus(g.ladder, 1), ..g }
    } else {
        g
    }
}

fn set_top(groups: &mut Vec<Group>, g: Group)
    requires
        old(groups).len() > 0,
    ensures
        final(groups)@ == topped(old(groups)@, g),
{
    let k: usize = groups.len() - 1;
    groups.set(k, g);
    assert(groups@ =~= topped(old(groups)@, g));
}

/// Closes the innermost bracket.
fn fold(groups: &mut Vec<Group>)
    requires
        old(groups).len() > 1,
    ensures
        final(groups)@ == folded(old(groups)@),
{
    let child = groups[groups.len() - 1];
    groups.pop();
    let g = groups[groups.len() - 1];
    let kid: usize = greater(g.kid, plus(4, greater(child.most, height_of(&child))));
    set_top(groups, Group { kid, ..g });
    assert(groups@ =~= folded(old(groups)@));
}

/// Closes what lies in the nearest `opener`.
fn fold_to(groups: &mut Vec<Group>, opener: u16)
    requires
        old(groups).len() > 0,
    ensures
        final(groups)@ == down_to(old(groups)@, opener),
        final(groups).len() > 0,
{
    while groups.len() > 1 && groups[groups.len() - 1].opener != opener
        invariant
            groups.len() > 0,
            down_to(groups@, opener) == down_to(old(groups)@, opener),
        decreases groups.len(),
    {
        fold(groups);
    }
}

fn is_held(groups: &Vec<Group>, opener: u16) -> (r: bool)
    requires
        groups.len() > 0,
    ensures
        r == holds(groups@, opener),
{
    let mut i: usize = 1;
    while i < groups.len()
        invariant
            1 <= i <= groups.len(),
            forall|j: int| 0 < j < i ==> (#[trigger] groups@[j]).opener != opener,
        decreases groups.len() - i,
    {
        if groups[i].opener == opener {
            assert(groups@[i as int].opener == opener);
            return true;
        }
        i = i + 1;
    }
    false
}

/// Where there is a bracket to close, going down to it stops above the whole source.
proof fn lemma_down_to_held(groups: Seq<Group>, opener: u16)
    requires
        holds(groups, opener),
    ensures
        down_to(groups, opener).len() > 1,
    decreases groups.len(),
{
    if groups.last().opener != opener {
        let i = choose|i: int| 0 < i < groups.len() && (#[trigger] groups[i]).opener == opener;
        assert(folded(groups)[i].opener == opener);
        lemma_down_to_held(folded(groups), opener);
    }
}

fn close(groups: &mut Vec<Group>, closer: u16)
    requires
        old(groups).len() > 0,
    ensures
        final(groups)@ == closed(old(groups)@, closer),
        final(groups).len() > 0,
{
    let opener: u16 = if closer == R_PAREN {
        L_PAREN
    } else if closer == R_BRACKET {
        L_BRACKET
    } else {
        L_BRACE
    };
    if is_held(groups, opener) {
        proof {
            lemma_down_to_held(groups@, opener);
        }
        fold_to(groups, opener);
        fold(groups);
    } else if opener == L_BRACE {
        fold_to(groups, L_BRACE);
    }
}

/// Reads one significant token.
fn read_token(groups: &mut Vec<Group>, kind: u16)
    requires
        old(groups).len() > 0,
    ensures
        final(groups)@ == groups_after(old(groups)@, kind),
        final(groups).len() > 0,
{
    let top = groups[groups.len() - 1];
    if kind == L_BRACE {
        groups.push(new_group(kind));
    } else if kind == L_PAREN || kind == L_BRACKET {
        set_top(groups, link(top));
        groups.push(new_group(kind));
    } else if kind == R_PAREN || kind == R_BRACKET || kind == R_BRACE {
        close(groups, kind);
    } else if kind == COMMA {
        set_top(groups, end_item(top));
    } else if kind == SEMICOLON {
        fold_to(groups, L_BRACE);
    } else {
        set_top(groups, charge(top, kind));
    }
}

/// The recursion and the height of all brackets.
fn totals(groups: &Vec<Group>) -> (r: (usize, usize))
    ensures
        r.0 == capped(total_recursion(groups@) as int),
        r.1 == capped(total_height(groups@) as int),
{
    let mut recursion: usize = 0;
    let mut height: usize = 0;
    let mut i: usize = 0;
    while i < groups.len()
        invariant
            i <= groups.len(),
            recursion == capped(total_recursion(groups@.take(i as int)) as int),
            height == capped(total_height(groups@.take(i as int)) as int),
        decreases groups.len() - i,
    {
        assert(groups@.take(i + 1).drop_last() =~= groups@.take(i as int));
        recursion = plus(recursion, recursion_of(&groups[i]));
        height = plus(height, plus(4, height_of(&groups[i])));
        i = i + 1;
    }
    assert(groups@.take(groups.len() as int) =~= groups@);
    (recursion, height)
}

proof fn lemma_calm_prefix(kinds: Seq<u16>, n: int)
    requires
        0 <= n <= kinds.len(),
        calm(kinds),
    ensures
        calm(kinds.take(n)),
    decreases kinds.len(),
{
    if n == kinds.len() {
        assert(kinds.take(n) =~= kinds);
    } else {
        lemma_calm_prefix(kinds.drop_last(), n);
        assert(kinds.drop_last().take(n) =~= kinds.take(n));
    }
}

/// Walks over the tokens. Where the source is calm, the result is how deep modules and
/// contracts are nested in it; else there is none.
fn walk_calmly(kinds: &Vec<u16>) -> (r: Option<usize>)
    ensures
        match r {
            Some(nest) => calm(kinds@) && nest == walk_of(kinds@).nest,
            None => !calm(kinds@),
        },
{
    let mut groups: Vec<Group> = vec![new_group(L_BRACE)];
    let mut prev: u16 = SEMICOLON;
    let mut slice: u16 = 0;
    let mut kept_recursion: usize = 0;
    let mut kept_height: usize = 0;
    let mut nest: usize = 0;
    let mut i: usize = 0;
    proof {
        assert(kinds@.take(0) =~= Seq::<u16>::empty());
        assert(groups@ =~= unwalked().groups);
        reveal_with_fuel(total_recursion, 2);
        reveal_with_fuel(total_height, 2);
    }
    while i < kinds.len()
        invariant
            i <= kinds.len(),
            groups.len() > 0,
            slice <= 4,
            walk_of(kinds@.take(i as int)) == (Walk {
                groups: groups@,
                prev,
                slice,
                kept_recursion,
                kept_height,
                nest: nest as nat,
            }),
            calm(kinds@.take(i as int)),
        decreases kinds.len() - i,
    {
        let kind: u16 = kinds[i];
        let ghost next = kinds@.take(i + 1);
        assert(next.drop_last() =~= kinds@.take(i as int));
        if !is_trivia(kind) {
            let top = groups[groups.len() - 1];
            let lacking = is_bare(prev, kind) || is_broken_slice(slice, kind);
            set_top(&mut groups, ready(top, prev, lacking, kind));
            if kind == CONTRACT_KW || lacking {
                let (recursion, height) = totals(&groups);
                kept_recursion = plus(plus(kept_recursion, recursion), 4);
                kept_height = plus(plus(kept_height, height), 4);
            }
            if (kind == MODULE_KW || kind == CONTRACT_KW) && nest < groups.len() {
                nest = groups.len();
            }
            read_token(&mut groups, kind);
            prev = kind;
            slice = read_slice(slice, kind);
            assert(walk_of(next) == (Walk {
                groups: groups@,
                prev,
                slice,
                kept_recursion,
                kept_height,
                nest: nest as nat,
            }));
            let (recursion, height) = totals(&groups);
            if plus(kept_recursion, recursion) > MAX_RECURSION || plus(kept_height, height)
                > MAX_HEIGHT {
                proof {
                    assert(!calm(next));
                    if calm(kinds@) {
                        lemma_calm_prefix(kinds@, i + 1);
                    }
                }
                return None;
            }
        }
        i = i + 1;
    }
    assert(kinds@.take(kinds@.len() as int) =~= kinds@);
    Some(nest)
}

fn affirm(marks: &mut Vec<u16>)
    ensures
        final(marks)@ == affirmed(old(marks)@),
{
    while marks.len() > 0 && marks[marks.len() - 1] == BANG
        invariant
            affirmed(marks@) == affirmed(old(marks)@),
        decreases marks.len(),
    {
        let ghost before = marks@;
        marks.pop();
        assert(marks@ =~= before.drop_last());
    }
}

fn mark(marks: &mut Vec<u16>, kind: u16)
    ensures
        final(marks)@ == marked(old(marks)@, kind),
{
    if kind == BANG || kind == L_PAREN {
        marks.push(kind);
    } else {
        affirm(marks);
        if kind == R_PAREN && marks.len() > 0 {
            let ghost before = marks@;
            marks.pop();
            assert(marks@ =~= before.drop_last());
            affirm(marks);
        }
    }
}

proof fn lemma_version_stays(kinds: Seq<u16>, n: int)
    requires
        0 <= n <= kinds.len(),
        version_too_deep(kinds.take(n)),
    ensures
        version_too_deep(kinds),
    decreases kinds.len(),
{
    if n == kinds.len() {
        assert(kinds.take(n) =~= kinds);
    } else {
        assert(kinds.drop_last().take(n) =~= kinds.take(n));
        lemma_version_stays(kinds.drop_last(), n);
    }
}

fn has_deep_version(kinds: &Vec<u16>) -> (r: bool)
    ensures
        r == version_too_deep(kinds@),
{
    let mut marks: Option<Vec<u16>> = None;
    let mut i: usize = 0;
    assert(kinds@.take(0) =~= Seq::<u16>::empty());
    while i < kinds.len()
        invariant
            i <= kinds.len(),
            match marks {
                Some(m) => marks_of(kinds@.take(i as int)) == Some(m@),
                None => marks_of(kinds@.take(i as int)) is None,
            },
            !version_too_deep(kinds@.take(i as int)),
        decreases kinds.len() - i,
    {
        let kind: u16 = kinds[i];
        let ghost next = kinds@.take(i + 1);
        assert(next.drop_last() =~= kinds@.take(i as int));
        if !is_trivia(kind) {
            marks = if kind == PRAGMA_KW {
                Some(Vec::new())
            } else if kind == SEMICOLON {
                None
            } else {
                match marks {
                    Some(m) => {
                        let mut m = m;
                        mark(&mut m, kind);
                        if m.len() > MAX_STRUCTURAL_DEPTH {
                            assert(marks_of(next) == Some(m@));
                            proof {
                                lemma_version_stays(kinds@, i + 1);
                            }
                            return true;
                        }
                        Some(m)
                    },
                    None => None,
                }
            };
        }
        i = i + 1;
    }
    assert(kinds@.take(kinds@.len() as int) =~= kinds@);
    false
}

/// The operators and opening brackets, and the modules and contracts, among the tokens.
fn count_tokens(kinds: &Vec<u16>) -> (r: (usize, usize))
    ensures
        r.0 == link_count(kinds@),
        r.1 == scope_count(kinds@),
{
    let mut links: usize = 0;
    let mut scopes: usize = 0;
    let mut i: usize = 0;
    assert(kinds@.take(0) =~= Seq::<u16>::empty());
    while i < kinds.len()
        invariant
            links <= i <= kinds.len(),
            scopes <= i,
            links == link_count(kinds@.take(i as int)),
            scopes == scope_count(kinds@.take(i as int)),
        decreases kinds.len() - i,
    {
        let kind: u16 = kinds[i];
        assert(kinds@.take(i + 1).drop_last() =~= kinds@.take(i as int));
        if is_chain_operator(kind) || kind == L_PAREN || kind == L_BRACKET || kind == L_BRACE {
            links = links + 1;
        }
        if kind == MODULE_KW || kind == CONTRACT_KW {
            scopes = scopes + 1;
        }
        i = i + 1;
    }
    assert(kinds@.take(kinds@.len() as int) =~= kinds@);
    (links, scopes)
}

/// Whether the parser could be strained too much by a source with the tokens `kinds`.
pub fn is_strained(kinds: &Vec<u16>) -> (r: bool)
    ensures
        r == strained(kinds@),
{
    if has_deep_version(kinds) {
        return true;
    }
    let (links, scopes) = count_tokens(kinds);
    let many = scopes > MAX_STRUCTURAL_DEPTH;
    if links <= MAX_LINKS && !many {
        return false;
    }
    match walk_calmly(kinds) {
        Some(nest) => many && nest > MAX_NEST,
        None => true,
    }
}

// ---------------------------------------------------------------------------
// Laws of the tokens
// ---------------------------------------------------------------------------

/// Whether no count of a bracket is near the place where counts stop.
pub open spec fn far_from_cap(g: Group) -> bool {
    &&& g.links < 3900
    &&& g.ops <= 5
    &&& g.steps < 3900
    &&& g.held < 3900
    &&& g.angles < 3900
    &&& g.ladder < 3900
}

/// What a token costs: every operator is a link. A comparison, a cast and a negation nest to the
/// right, a conditional is held to the end of its statement, and any other operator opens a level
/// of precedence, of which there are five. A closure is two links and six calls. An angle bracket
/// may be one, and a branch or a loop is a rung. No other token costs anything.
pub proof fn law_what_a_token_costs(g: Group, kind: u16)
    requires
        far_from_cap(g),
    ensures
        ({
            let h = charged(g, kind);
            let compares = kind == LT || kind == GT || kind == LT_EQ || kind == GT_EQ || kind
                == AS_KW;
            let operator = kind == super::tokens::PLUS || kind == super::tokens::MINUS || kind
                == super::tokens::STAR || kind == super::tokens::PIPE_PIPE || kind
                == super::tokens::AMP_AMP || kind == super::tokens::EQ_EQ || kind
                == super::tokens::BANG_EQ;
            let rung = kind == IF_KW || kind == ELSE_KW || kind == FOR_KW;
            &&& h.links == g.links + (if kind == FAT_ARROW {
                2int
            } else if operator || compares || kind == DOT || kind == QUESTION || kind == BANG {
                1
            } else {
                0
            })
            &&& h.steps == g.steps + (if kind == FAT_ARROW {
                6int
            } else if compares || kind == BANG {
                1
            } else {
                0
            })
            &&& h.ops == if operator && g.ops < 5 {
                g.ops + 1
            } else {
                g.ops as int
            }
            &&& h.held == g.held + (if kind == QUESTION {
                1int
            } else {
                0
            })
            &&& h.angles == if kind == LT {
                g.angles + 1
            } else if kind == GT && g.angles > 0 {
                g.angles - 1
            } else {
                g.angles as int
            }
            &&& h.ladder == g.ladder + (if rung {
                1int
            } else {
                0
            })
            &&& h.opener == g.opener
            &&& h.kid == g.kid
            &&& h.most == g.most
        }),
{
}

/// What the counts of a bracket come to: a call for the bracket, three for a brace, and one for
/// each level, step, held construct, angle and rung. In height an angle counts three times, and the
/// links and the tallest bracket inside count too. Each open bracket adds four to the height.
pub proof fn law_what_brackets_come_to(groups: Seq<Group>, g: Group)
    ensures
        total_recursion(Seq::<Group>::empty()) == 0,
        total_height(Seq::<Group>::empty()) == 0,
        total_recursion(groups.push(g)) == total_recursion(groups) + (if g.opener == L_BRACE {
            3int
        } else {
            1
        }) + g.ops + g.steps + g.held + g.angles + g.ladder,
        total_height(groups.push(g)) == total_height(groups) + 4 + g.links + g.held + 3 * g.angles
            + g.ladder + g.kid,
{
    assert(groups.push(g).drop_last() =~= groups);
}

/// Where counts start anew: the end of an item clears what belongs to it, the end of a block or of
/// a literal the rungs as well, and the end of a statement all; the greatest height is remembered.
pub proof fn law_where_counts_start_anew(g: Group)
    ensures
        ({
            let i = item_ended(g);
            let p = part_ended(g);
            let a = all_ended(g);
            &&& i.links == 0 && i.ops == 0 && i.steps == 0 && i.kid == 0
            &&& i.held == g.held && i.angles == g.angles && i.ladder == g.ladder
            &&& p.links == 0 && p.ops == 0 && p.steps == 0 && p.kid == 0 && p.ladder == 0
            &&& p.held == g.held && p.angles == g.angles
            &&& a.links == 0 && a.ops == 0 && a.steps == 0 && a.kid == 0
            &&& a.held == 0 && a.angles == 0 && a.ladder == 0
            &&& i.opener == g.opener && p.opener == g.opener && a.opener == g.opener
            &&& i.most == p.most == a.most
            &&& i.most >= g.most
            &&& height(g) < 4000 ==> i.most >= height(g) && (i.most == g.most || i.most == height(
                g,
            ))
        }),
{
}

/// A construct lacks its bracket where a type lacks its angle bracket, a call its round bracket, or
/// a width its number; a construct that has it never does.
pub proof fn law_what_lacks_its_bracket(prev: u16, kind: u16)
    ensures
        kind == L_PAREN ==> (bare(prev, kind) <==> prev == VECTOR_KW || prev == DEFAULT_KW || prev
            == UINT_KW || prev == OPAQUE_KW || prev == BYTES_KW || prev == UNSIGNED_KW || prev
            == INTEGER_KW),
        kind == LT ==> (bare(prev, kind) <==> prev == ASSERT_KW || prev == MAP_KW || prev == FOLD_KW
            || prev == DISCLOSE_KW || prev == PAD_KW || prev == IF_KW || prev == FOR_KW || prev
            == UNSIGNED_KW || prev == INTEGER_KW),
        prev == BYTES_KW && kind == L_BRACKET ==> !bare(prev, kind),
        prev == UNSIGNED_KW && kind == INTEGER_KW ==> !bare(prev, kind),
        prev == INTEGER_KW && kind == L_BRACKET ==> !bare(prev, kind),
        kind == SEMICOLON ==> (bare(prev, kind) <==> prev == VECTOR_KW || prev == DEFAULT_KW || prev
            == UINT_KW || prev == OPAQUE_KW || prev == BYTES_KW || prev == UNSIGNED_KW || prev
            == INTEGER_KW || prev == ASSERT_KW || prev == MAP_KW || prev == FOLD_KW || prev
            == DISCLOSE_KW || prev == PAD_KW || prev == IF_KW || prev == FOR_KW),
{
}

/// A slice is whole where it is written `slice<n>(` with a number or a name, or `slice(`; at any
/// token at which it goes on otherwise it is broken.
pub proof fn law_whole_slices_are_not_broken(kind: u16)
    ensures
        slice_after(0, SLICE_KW) == 1,
        broken_slice(1, kind) <==> kind != LT && kind != L_PAREN,
        slice_after(1, LT) == 2,
        broken_slice(2, kind) <==> kind != INT_LIT && kind != IDENT,
        slice_after(2, INT_LIT) == 3,
        slice_after(2, IDENT) == 3,
        broken_slice(3, kind) <==> kind != GT,
        slice_after(3, GT) == 4,
        broken_slice(4, kind) <==> kind != L_PAREN,
        kind != SLICE_KW ==> slice_after(0, kind) == 0 && slice_after(4, kind) == 0,
        !broken_slice(0, kind),
{
}

/// A source strains the parser where a version nests too deep, and where its operators and brackets
/// are more than 1024 or its modules and contracts more than 512 and it is not calm all through, or
/// its modules and contracts are that many and nest more than three deep. It is calm where no more
/// than 240 calls can be open and its tree is no taller than 2000.
pub proof fn law_what_strains_the_parser(kinds: Seq<u16>, w: Walk)
    ensures
        strained(kinds) <==> version_too_deep(kinds) || !calm(kinds) && (link_count(kinds) > 1024
            || scope_count(kinds) > 512) || scope_count(kinds) > 512 && walk_of(kinds).nest > 3,
        calm_at(w) <==> w.kept_recursion + total_recursion(w.groups) <= 240 && w.kept_height
            + total_height(w.groups) <= 2000,
        calm(kinds) ==> calm_at(walk_of(kinds)),
        kinds.len() > 0 ==> (calm(kinds) <==> calm_at(walk_of(kinds)) && calm(kinds.drop_last())),
{
}

/// In a version every negation and every opening bracket is open until what it belongs to is
/// complete: a closing bracket closes the nearest one and all negations in it and before it, and
/// any other token completes the negations before it.
pub proof fn law_versions_are_counted(marks: Seq<u16>, n: nat)
    ensures
        marked(marks, BANG).len() == marks.len() + 1,
        marked(marks, L_PAREN).len() == marks.len() + 1,
        marked(marks.push(L_PAREN), R_PAREN) == affirmed(marks),
        marked(marks.push(BANG), R_PAREN) == marked(marks, R_PAREN),
        marks.len() > 0 && marks.last() == L_PAREN ==> marked(marks, IDENT) == marks,
        affirmed(marks.push(BANG)) == affirmed(marks),
        affirmed(marks.push(L_PAREN)) == marks.push(L_PAREN),
{
    assert(marks.push(BANG).drop_last() =~= marks);
    assert(marks.push(L_PAREN).drop_last() =~= marks);
}

/// A version begins at a `pragma` and ends at the semicolon; outside of one nothing is counted.
pub proof fn law_versions_begin_and_end(kinds: Seq<u16>, kind: u16)
    requires
        kind != super::tokens::WHITESPACE,
        kind != super::tokens::LINE_COMMENT,
        kind != super::tokens::BLOCK_COMMENT,
    ensures
        marks_of(kinds.push(PRAGMA_KW)) == Some(Seq::<u16>::empty()),
        marks_of(kinds.push(SEMICOLON)) is None,
        kind != PRAGMA_KW && marks_of(kinds) is None ==> marks_of(kinds.push(kind)) is None,
        kind != PRAGMA_KW && kind != SEMICOLON && marks_of(kinds) is Some ==> marks_of(
            kinds.push(kind),
        ) == Some(marked(marks_of(kinds)->Some_0, kind)),
        version_too_deep(kinds.push(kind)) <==> version_too_deep(kinds) || (marks_of(
            kinds.push(kind),
        ) matches Some(m) && m.len() > 512),
{
    assert(kinds.push(PRAGMA_KW).drop_last() =~= kinds);
    assert(kinds.push(SEMICOLON).drop_last() =~= kinds);
    assert(kinds.push(kind).drop_last() =~= kinds);
}

/// The walk starts in the source itself, as behind the end of a statement, and with nothing kept. A
/// construct that lacks its bracket, and a contract, keep what is open for good, and four calls and
/// levels more; nothing else does. White space and comments are passed over.
pub proof fn law_what_the_walk_keeps(kinds: Seq<u16>, w: Walk, kind: u16)
    requires
        w.kept_recursion + total_recursion(found(w, kind)) + 4 < 4000,
        w.kept_height + total_height(found(w, kind)) + 4 < 4000,
    ensures
        ({
            let start = walk_of(Seq::<u16>::empty());
            let next = walked(w, kind);
            let loose = kind == CONTRACT_KW || bare(w.prev, kind) || broken_slice(w.slice, kind);
            &&& start.groups == seq![fresh(L_BRACE)]
            &&& start.prev == SEMICOLON
            &&& start.slice == 0 && start.kept_recursion == 0 && start.kept_height == 0
                && start.nest == 0
            &&& next.prev == kind
            &&& next.slice == slice_after(w.slice, kind)
            &&& loose ==> next.kept_recursion == w.kept_recursion + total_recursion(found(w, kind))
                + 4 && next.kept_height == w.kept_height + total_height(found(w, kind)) + 4
            &&& !loose ==> next.kept_recursion == w.kept_recursion && next.kept_height
                == w.kept_height
            &&& kind != MODULE_KW && kind != CONTRACT_KW ==> next.nest == w.nest
            &&& kind == MODULE_KW || kind == CONTRACT_KW ==> next.nest == if w.nest < found(
                w,
                kind,
            ).len() {
                found(w, kind).len()
            } else {
                w.nest
            }
        }),
        walk_of(kinds.push(super::tokens::WHITESPACE)) == walk_of(kinds),
        walk_of(kinds.push(super::tokens::LINE_COMMENT)) == walk_of(kinds),
        walk_of(kinds.push(super::tokens::BLOCK_COMMENT)) == walk_of(kinds),
{
    assert(kinds.push(super::tokens::WHITESPACE).drop_last() =~= kinds);
    assert(kinds.push(super::tokens::LINE_COMMENT).drop_last() =~= kinds);
    assert(kinds.push(super::tokens::BLOCK_COMMENT).drop_last() =~= kinds);
}

/// A bracket as a token finds it: behind a semicolon all counts start anew, unless an `else`
/// follows; behind a brace those of the part, unless the expression goes on; and a construct that
/// lacks its bracket is held with six calls.
pub proof fn law_how_a_token_finds_its_bracket(g: Group, prev: u16, kind: u16)
    requires
        far_from_cap(g),
    ensures
        prev == SEMICOLON && kind != ELSE_KW ==> readied(g, prev, false, kind) == all_ended(g),
        prev == R_BRACE && !goes_on(kind) ==> readied(g, prev, false, kind) == part_ended(g),
        prev != SEMICOLON && prev != R_BRACE ==> readied(g, prev, false, kind) == g,
        prev == SEMICOLON && kind == ELSE_KW ==> readied(g, prev, false, kind) == g,
        prev == R_BRACE && goes_on(kind) ==> readied(g, prev, false, kind) == g,
        prev != SEMICOLON && prev != R_BRACE ==> readied(g, prev, true, kind) == (Group {
            held: (g.held + 6) as usize,
            ..g
        }),
        goes_on(kind) <==> depth::chain_operator(kind) || kind == R_PAREN || kind == R_BRACKET
            || kind == R_BRACE || kind == L_PAREN || kind == L_BRACKET || kind == COLON || kind
            == COMMA || kind == SEMICOLON || kind == EQ || kind == PLUS_EQ || kind == MINUS_EQ
            || kind == FAT_ARROW || kind == ELSE_KW,
{
}

/// What a token does to the open brackets: an opening one adds one, a round or square one being a
/// link of the one around it too; a comma ends an item; a semicolon closes all in the nearest
/// brace; and any other token but a closing one costs what it costs.
pub proof fn law_what_a_token_does_to_the_brackets(groups: Seq<Group>, g: Group, kind: u16)
    requires
        far_from_cap(g),
    ensures
        ({
            let at = groups.push(g);
            &&& groups_after(at, L_BRACE) == at.push(fresh(L_BRACE))
            &&& groups_after(at, L_PAREN) == groups.push(
                Group { links: (g.links + 1) as usize, ..g },
            ).push(fresh(L_PAREN))
            &&& groups_after(at, L_BRACKET) == groups.push(
                Group { links: (g.links + 1) as usize, ..g },
            ).push(fresh(L_BRACKET))
            &&& groups_after(at, COMMA) == groups.push(item_ended(g))
            &&& g.opener == L_BRACE ==> groups_after(at, SEMICOLON) == at
            &&& !opens(kind) && !depth::closes(kind) && kind != COMMA && kind != SEMICOLON
                ==> groups_after(at, kind) == groups.push(charged(g, kind))
        }),
{
    assert(groups.push(g).drop_last() =~= groups);
}

/// A closing bracket closes the nearest that it fits; the height of what it held stays with the
/// bracket around it.
pub proof fn law_closing_keeps_the_height(groups: Seq<Group>, g: Group, child: Group, closer: u16)
    requires
        depth::closes(closer),
        child.opener == opener_of(closer),
        groups.len() > 0 || g.opener == L_BRACE,
        child.most < 3900,
        height(child) < 3900,
    ensures
        opener_of(R_PAREN) == L_PAREN,
        opener_of(R_BRACKET) == L_BRACKET,
        opener_of(R_BRACE) == L_BRACE,
        ({
            let after = closed(groups.push(g).push(child), closer);
            let tall = if child.most < height(child) {
                height(child) as int + 4
            } else {
                child.most as int + 4
            };
            &&& after.len() == groups.len() + 1
            &&& after.drop_last() == groups
            &&& after.last().kid == if g.kid < tall {
                tall
            } else {
                g.kid as int
            }
            &&& after.last() == (Group { kid: after.last().kid, ..g })
        }),
{
    let at = groups.push(g).push(child);
    assert(at[at.len() - 1].opener == opener_of(closer));
    assert(holds(at, opener_of(closer)));
    assert(down_to(at, opener_of(closer)) == at);
    assert(at.drop_last() =~= groups.push(g));
    assert(groups.push(g).drop_last() =~= groups);
    assert(closed(at, closer).drop_last() =~= groups);
}

} // verus!
