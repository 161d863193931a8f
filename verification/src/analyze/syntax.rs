//! The syntax tree of a Compact source, as the flat list of its nodes and tokens.

use compactp_diagnostics::Diagnostic as ParserDiagnostic;
use vstd::prelude::*;

use super::tokens::ERROR;
use crate::analyze::depth;

verus! {

/// A node or a token of the syntax tree. The elements of a tree stand in preorder: the
/// elements below a node are those that follow it with a greater depth, up to the first
/// whose depth is not greater.
#[derive(Debug)]
pub struct Element {
    pub kind: u16,
    /// The number of nodes the element lies in.
    pub depth: u32,
    /// The text of a token; absent for a node.
    pub text: Option<String>,
}

/// What an [`Element`] says.
pub struct ElementView {
    pub kind: u16,
    pub depth: int,
    pub text: Option<Seq<char>>,
}

impl View for Element {
    type V = ElementView;

    open spec fn view(&self) -> ElementView {
        ElementView {
            kind: self.kind,
            depth: self.depth as int,
            text: crate::text::opt_view(self.text),
        }
    }
}

pub open spec fn element_views(es: Seq<Element>) -> Seq<ElementView> {
    Seq::new(es.len(), |i: int| es[i]@)
}

// ---------------------------------------------------------------------------
// The parser
// ---------------------------------------------------------------------------

/// How deep the parser may recurse. It is always passed on, so that another default of the
/// parser cannot lift the bound.
pub const PARSER_MAX_DEPTH: u32 = 256;

/// What the parser makes of a source text: a tree and a list of errors.
#[verifier::external_type_specification]
#[verifier::external_body]
pub struct ExParseResult(compactp_parser::ParseResult);

/// What `compactp_parser::parse_with` makes of a source text, with recovery, its default
/// limit on the number of errors, and the given limit on its recursion.
pub uninterp spec fn parsed(source: Seq<char>, max_depth: u32) -> compactp_parser::ParseResult;

/// The nodes and tokens of a parse result's tree, in preorder.
pub uninterp spec fn tree_elements(r: compactp_parser::ParseResult) -> Seq<ElementView>;

/// The errors of a parse result, in the order in which the parser met them.
pub uninterp spec fn parse_errors(r: compactp_parser::ParseResult) -> Seq<ParserDiagnostic>;

/// `compactp_parser::parse_with`, a function of the source text and the options, left to
/// the name.
///
/// It must not exhaust the stack. Expressions, types, statements and blocks recurse up to
/// `max_depth`. A version, a pattern, and a declaration in a module or contract recurse without
/// that limit: a version once for each negation and bracket that is open, a pattern once for each
/// open bracket, and a declaration once for each module and contract around it, which stay open
/// behind an error. The tree, which is hashed while it is built and released at the end by
/// recursion, is as deep as its chains are long: an expression wraps what stands to the left of
/// every operator, call and index in it, and behind `max_depth` it does so with any token for an
/// operand. So no source that is too deep may be handed over, nor a greater limit than
/// [`PARSER_MAX_DEPTH`]. See [`super::links`] for how the depth of a chain is bounded.
#[verifier::external_body]
pub(crate) fn parse_with(source: &str, max_depth: u32) -> (r: compactp_parser::ParseResult)
    requires
        !depth::too_deep(source@),
        max_depth <= PARSER_MAX_DEPTH,
    ensures
        r == parsed(source@, max_depth),
{
    compactp_parser::parse_with(
        source,
        compactp_parser::ParseOptions { max_depth, ..compactp_parser::ParseOptions::default() },
    )
}

/// `SyntaxNode::descendants_with_tokens` of the root of a parse result's tree: every node
/// and token in preorder, each with its kind as `SyntaxKind` numbers it, the number of its
/// ancestors, and the text of a token. The first is the root, which is a node. What they are
/// is left to the name.
#[verifier::external_body]
pub(crate) fn elements(r: &compactp_parser::ParseResult) -> (es: Vec<Element>)
    ensures
        element_views(es@) == tree_elements(*r),
        es.len() > 0 && es@[0].text is None,
{
    compactp_syntax::SyntaxNode::new_root(r.green.clone())
        .descendants_with_tokens()
        .map(|e| Element {
            kind: u16::from(e.kind()),
            depth: e.parent().map_or(0, |p| p.ancestors().count()) as u32,
            text: e.as_token().map(|t| t.text().to_string()),
        })
        .collect()
}

/// The field `errors` of `compactp_parser::ParseResult`: the errors of a parse result, in
/// order. What they are is left to the name.
#[verifier::external_body]
pub(crate) fn errors(r: &compactp_parser::ParseResult) -> (ds: Vec<ParserDiagnostic>)
    ensures
        ds@ == parse_errors(*r),
{
    r.errors.clone()
}

// ---------------------------------------------------------------------------
// Reading the tree
// ---------------------------------------------------------------------------

pub open spec fn is_node(e: ElementView) -> bool {
    e.text is None
}

/// The number of nodes among the elements.
pub open spec fn node_count(es: Seq<ElementView>) -> nat
    decreases es.len(),
{
    if es.len() == 0 {
        0
    } else {
        node_count(es.drop_last()) + if is_node(es.last()) {
            1nat
        } else {
            0nat
        }
    }
}

/// The number of nodes that the parser made while recovering from an error.
pub open spec fn recovery_count(es: Seq<ElementView>) -> nat
    decreases es.len(),
{
    if es.len() == 0 {
        0
    } else {
        recovery_count(es.drop_last()) + if is_node(es.last()) && es.last().kind == ERROR {
            1nat
        } else {
            0nat
        }
    }
}

/// There are no more recovery nodes than nodes, and a list that starts with a node has one.
pub proof fn lemma_counts(es: Seq<ElementView>)
    ensures
        recovery_count(es) <= node_count(es),
        es.len() > 0 && is_node(es[0]) ==> node_count(es) >= 1,
    decreases es.len(),
{
    if es.len() > 0 {
        lemma_counts(es.drop_last());
        if es.len() > 1 {
            assert(es.drop_last()[0] == es[0]);
        }
    }
}

/// The first position in `from..hi` whose element lies no deeper than `depth`, or `hi`.
pub open spec fn below_until(es: Seq<ElementView>, depth: int, from: int, hi: int) -> int
    decreases hi - from,
{
    if from >= hi || es[from].depth <= depth {
        from
    } else {
        below_until(es, depth, from + 1, hi)
    }
}

/// Where the subtree of element `i` ends, within `..hi`.
pub open spec fn subtree_end(es: Seq<ElementView>, i: int, hi: int) -> int {
    below_until(es, es[i].depth, i + 1, hi)
}

pub proof fn lemma_below_until(es: Seq<ElementView>, depth: int, from: int, hi: int)
    requires
        from <= hi,
    ensures
        from <= below_until(es, depth, from, hi) <= hi,
    decreases hi - from,
{
    if from >= hi || es[from].depth <= depth {
    } else {
        lemma_below_until(es, depth, from + 1, hi);
    }
}

/// The text of the first token of kind `kind` at depth `depth` in `lo..hi`.
pub open spec fn first_token(
    es: Seq<ElementView>,
    lo: int,
    hi: int,
    depth: int,
    kind: u16,
) -> Option<Seq<char>>
    decreases hi - lo,
{
    if lo >= hi {
        None
    } else if es[lo].depth == depth && es[lo].kind == kind && es[lo].text is Some {
        es[lo].text
    } else {
        first_token(es, lo + 1, hi, depth, kind)
    }
}

/// The text of the first token of kind `kind` directly in node `i`, whose subtree ends at
/// `end`.
pub open spec fn child_token(es: Seq<ElementView>, i: int, end: int, kind: u16) -> Option<
    Seq<char>,
> {
    first_token(es, i + 1, end, es[i].depth + 1, kind)
}

/// The texts of all tokens of kind `kind` at depth `depth` in `lo..hi`, in order.
pub open spec fn all_tokens(
    es: Seq<ElementView>,
    lo: int,
    hi: int,
    depth: int,
    kind: u16,
) -> Seq<Seq<char>>
    decreases hi - lo,
{
    if lo >= hi {
        seq![]
    } else {
        let rest = all_tokens(es, lo + 1, hi, depth, kind);
        match es[lo].text {
            Some(t) => if es[lo].depth == depth && es[lo].kind == kind {
                seq![t] + rest
            } else {
                rest
            },
            None => rest,
        }
    }
}

/// The number of nodes and the number of recovery nodes.
pub fn count_nodes(es: &Vec<Element>) -> (r: (usize, usize))
    ensures
        r.0 == node_count(element_views(es@)),
        r.1 == recovery_count(element_views(es@)),
{
    let mut nodes: usize = 0;
    let mut recovered: usize = 0;
    let mut i: usize = 0;
    let ghost vs = element_views(es@);
    while i < es.len()
        invariant
            i <= es.len(),
            vs == element_views(es@),
            nodes == node_count(vs.take(i as int)),
            recovered == recovery_count(vs.take(i as int)),
            nodes <= i,
            recovered <= i,
        decreases es.len() - i,
    {
        proof {
            assert(vs.take(i + 1).drop_last() =~= vs.take(i as int));
            assert(vs.take(i + 1).last() == es@[i as int]@);
        }
        if es[i].text.is_none() {
            nodes = nodes + 1;
            if es[i].kind == ERROR {
                recovered = recovered + 1;
            }
        }
        i = i + 1;
    }
    assert(vs.take(vs.len() as int) =~= vs);
    (nodes, recovered)
}

/// Where the subtree of element `i` ends, within `..hi`.
pub fn find_subtree_end(es: &Vec<Element>, i: usize, hi: usize) -> (r: usize)
    requires
        i < hi <= es.len(),
    ensures
        r == subtree_end(element_views(es@), i as int, hi as int),
        i < r <= hi,
{
    let depth: u32 = es[i].depth;
    let mut j: usize = i + 1;
    while j < hi && es[j].depth > depth
        invariant
            i < j <= hi <= es.len(),
            depth == es[i as int].depth,
            below_until(element_views(es@), depth as int, j as int, hi as int) == subtree_end(
                element_views(es@),
                i as int,
                hi as int,
            ),
        decreases hi - j,
    {
        j = j + 1;
    }
    j
}

/// The text of the first token of kind `kind` directly in node `i`, whose subtree ends at
/// `end`.
pub fn find_child_token(es: &Vec<Element>, i: usize, end: usize, kind: u16) -> (r: Option<String>)
    requires
        i < end <= es.len(),
    ensures
        crate::text::opt_view(r) == child_token(element_views(es@), i as int, end as int, kind),
{
    let depth: u64 = es[i].depth as u64 + 1;
    let mut j: usize = i + 1;
    while j < end
        invariant
            i < j <= end <= es.len(),
            depth == es[i as int].depth + 1,
            first_token(element_views(es@), j as int, end as int, depth as int, kind)
                == child_token(element_views(es@), i as int, end as int, kind),
        decreases end - j,
    {
        if es[j].depth as u64 == depth && es[j].kind == kind && es[j].text.is_some() {
            return crate::text::clone_opt(&es[j].text);
        }
        j = j + 1;
    }
    None
}

/// Appends the texts of all tokens of kind `kind` directly in node `i`, whose subtree ends
/// at `end`.
pub fn collect_child_tokens(
    es: &Vec<Element>,
    i: usize,
    end: usize,
    kind: u16,
    out: &mut Vec<String>,
)
    requires
        i < end <= es.len(),
    ensures
        crate::text::views(final(out)@) == crate::text::views(old(out)@) + all_tokens(
            element_views(es@),
            i + 1,
            end as int,
            es@[i as int].depth + 1,
            kind,
        ),
{
    let depth: u64 = es[i].depth as u64 + 1;
    let mut j: usize = i + 1;
    let ghost vs = element_views(es@);
    while j < end
        invariant
            i < j <= end <= es.len(),
            vs == element_views(es@),
            depth == es[i as int].depth + 1,
            crate::text::views(out@) + all_tokens(vs, j as int, end as int, depth as int, kind)
                == crate::text::views(old(out)@) + all_tokens(
                vs,
                i + 1,
                end as int,
                depth as int,
                kind,
            ),
        decreases end - j,
    {
        let ghost before = out@;
        if es[j].depth as u64 == depth && es[j].kind == kind {
            match &es[j].text {
                Some(t) => {
                    out.push(t.clone());
                    proof {
                        crate::text::lemma_views_push(before, out@.last());
                        let rest = all_tokens(vs, j + 1, end as int, depth as int, kind);
                        assert(crate::text::views(before) + (seq![t@] + rest)
                            =~= crate::text::views(out@) + rest);
                    }
                },
                None => {},
            }
        }
        j = j + 1;
    }
    proof {
        assert(all_tokens(vs, end as int, end as int, depth as int, kind) =~= Seq::<
            Seq<char>,
        >::empty());
        assert(crate::text::views(out@) + Seq::<Seq<char>>::empty() =~= crate::text::views(out@));
    }
}

// ---------------------------------------------------------------------------
// Laws
// ---------------------------------------------------------------------------

/// The subtree of a node is what follows it up to the first element that lies no deeper than the
/// node itself.
pub proof fn law_a_subtree_is_what_lies_deeper(es: Seq<ElementView>, i: int, hi: int)
    requires
        0 <= i < hi <= es.len(),
    ensures
        i < subtree_end(es, i, hi) <= hi,
        forall|j: int|
            i < j < subtree_end(es, i, hi) ==> (#[trigger] es[j]).depth > es[i].depth,
        subtree_end(es, i, hi) < hi ==> es[subtree_end(es, i, hi)].depth <= es[i].depth,
{
    lemma_below(es, es[i].depth, i + 1, hi);
}

proof fn lemma_below(es: Seq<ElementView>, depth: int, from: int, hi: int)
    requires
        from <= hi,
    ensures
        from <= below_until(es, depth, from, hi) <= hi,
        forall|j: int|
            from <= j < below_until(es, depth, from, hi) ==> (#[trigger] es[j]).depth > depth,
        below_until(es, depth, from, hi) < hi ==> es[below_until(es, depth, from, hi)].depth
            <= depth,
    decreases hi - from,
{
    if from < hi && es[from].depth > depth {
        lemma_below(es, depth, from + 1, hi);
    }
}

/// Whether the element at `j` is a token of this kind directly in the node at `i`, whose subtree
/// ends at `end`.
pub open spec fn token_in(es: Seq<ElementView>, i: int, end: int, kind: u16, j: int) -> bool {
    &&& i < j < end
    &&& es[j].depth == es[i].depth + 1
    &&& es[j].kind == kind
    &&& es[j].text is Some
}

/// The token of a kind that is found in a node is the first that stands directly in it, and one
/// is found exactly where there is one.
pub proof fn law_the_first_token_is_found(es: Seq<ElementView>, i: int, end: int, kind: u16)
    ensures
        child_token(es, i, end, kind) is Some <==> exists|j: int| token_in(es, i, end, kind, j),
        forall|j: int|
            #[trigger] token_in(es, i, end, kind, j) && (forall|k: int|
                k < j ==> !#[trigger] token_in(es, i, end, kind, k)) ==> child_token(
                es,
                i,
                end,
                kind,
            ) == es[j].text,
{
    lemma_first_token(es, i + 1, end, es[i].depth + 1, kind);
    if child_token(es, i, end, kind) is Some {
        let j = choose|j: int|
            i + 1 <= j < end && (#[trigger] es[j]).depth == es[i].depth + 1 && es[j].kind == kind
                && es[j].text is Some;
        assert(token_in(es, i, end, kind, j));
    }
    assert forall|j: int|
        #[trigger] token_in(es, i, end, kind, j) && (forall|k: int|
            k < j ==> !#[trigger] token_in(es, i, end, kind, k)) implies child_token(
        es,
        i,
        end,
        kind,
    ) == es[j].text by {
        let f = choose|f: int|
            i + 1 <= f < end && (#[trigger] es[f]).depth == es[i].depth + 1 && es[f].kind == kind
                && es[f].text is Some && child_token(es, i, end, kind) == es[f].text && (forall|
                k: int,
            |
                i + 1 <= k < f ==> !((#[trigger] es[k]).depth == es[i].depth + 1 && es[k].kind
                    == kind && es[k].text is Some));
        assert(token_in(es, i, end, kind, f));
        assert(!(f < j));
        if j < f {
            assert(es[j].depth == es[i].depth + 1);
        }
    }
}

proof fn lemma_first_token(es: Seq<ElementView>, lo: int, hi: int, depth: int, kind: u16)
    ensures
        first_token(es, lo, hi, depth, kind) is Some <==> exists|j: int|
            lo <= j < hi && (#[trigger] es[j]).depth == depth && es[j].kind == kind
                && es[j].text is Some,
        first_token(es, lo, hi, depth, kind) is Some ==> exists|f: int|
            lo <= f < hi && (#[trigger] es[f]).depth == depth && es[f].kind == kind
                && es[f].text is Some && first_token(es, lo, hi, depth, kind) == es[f].text && (
            forall|k: int|
                lo <= k < f ==> !((#[trigger] es[k]).depth == depth && es[k].kind == kind
                    && es[k].text is Some)),
    decreases hi - lo,
{
    if lo < hi {
        lemma_first_token(es, lo + 1, hi, depth, kind);
        if es[lo].depth == depth && es[lo].kind == kind && es[lo].text is Some {
            assert(es[lo].depth == depth);
        } else if first_token(es, lo + 1, hi, depth, kind) is Some {
            let f = choose|f: int|
                lo + 1 <= f < hi && (#[trigger] es[f]).depth == depth && es[f].kind == kind
                    && es[f].text is Some && first_token(es, lo + 1, hi, depth, kind) == es[f].text
                    && (forall|k: int|
                    lo + 1 <= k < f ==> !((#[trigger] es[k]).depth == depth && es[k].kind == kind
                        && es[k].text is Some));
            assert(es[f].depth == depth);
        }
    }
}

/// What is found stands there.
pub proof fn lemma_first_token_stands(
    es: Seq<ElementView>,
    lo: int,
    hi: int,
    depth: int,
    kind: u16,
)
    ensures
        first_token(es, lo, hi, depth, kind) matches Some(t) ==> exists|j: int|
            lo <= j < hi && (#[trigger] es[j]).depth == depth && es[j].kind == kind && es[j].text
                == Some(t),
    decreases hi - lo,
{
    if lo < hi {
        lemma_first_token_stands(es, lo + 1, hi, depth, kind);
        if es[lo].depth == depth && es[lo].kind == kind && es[lo].text is Some {
            assert(es[lo].depth == depth);
        }
    }
}

/// The tokens of a kind that are collected are exactly those that stand directly at the depth.
pub proof fn law_all_tokens_are_collected(
    es: Seq<ElementView>,
    lo: int,
    hi: int,
    depth: int,
    kind: u16,
    name: Seq<char>,
)
    ensures
        all_tokens(es, lo, hi, depth, kind).contains(name) <==> exists|j: int|
            lo <= j < hi && (#[trigger] es[j]).depth == depth && es[j].kind == kind && es[j].text
                == Some(name),
    decreases hi - lo,
{
    if lo < hi {
        law_all_tokens_are_collected(es, lo + 1, hi, depth, kind, name);
        let all = all_tokens(es, lo, hi, depth, kind);
        let rest = all_tokens(es, lo + 1, hi, depth, kind);
        if es[lo].text is Some && es[lo].depth == depth && es[lo].kind == kind {
            let t = es[lo].text->Some_0;
            assert(all =~= seq![t] + rest);
            assert(all[0] == t);
            if rest.contains(name) {
                let k = choose|k: int| 0 <= k < rest.len() && rest[k] == name;
                assert(all[k + 1] == name);
            }
            if all.contains(name) && t != name {
                let k = choose|k: int| 0 <= k < all.len() && all[k] == name;
                assert(rest[k - 1] == name);
            }
            if t == name {
                assert(es[lo].depth == depth);
            }
        }
    }
}

/// The nodes are counted one by one: each element that is no token adds one, each that the parser
/// made while it recovered from an error adds one to those too, and a token adds nothing.
pub proof fn law_nodes_are_counted(es: Seq<ElementView>, more: Seq<ElementView>, e: ElementView)
    ensures
        node_count(es + more) == node_count(es) + node_count(more),
        recovery_count(es + more) == recovery_count(es) + recovery_count(more),
        node_count(seq![e]) == if e.text is None {
            1nat
        } else {
            0nat
        },
        recovery_count(seq![e]) == if e.text is None && e.kind == ERROR {
            1nat
        } else {
            0nat
        },
        node_count(Seq::<ElementView>::empty()) == 0,
        recovery_count(Seq::<ElementView>::empty()) == 0,
    decreases more.len(),
{
    reveal_with_fuel(node_count, 2);
    reveal_with_fuel(recovery_count, 2);
    assert(seq![e].drop_last() =~= Seq::<ElementView>::empty());
    if more.len() == 0 {
        assert(es + more =~= es);
    } else {
        law_nodes_are_counted(es, more.drop_last(), e);
        assert((es + more).drop_last() =~= es + more.drop_last());
    }
}

/// Elements are seen in their order, each as it is.
pub proof fn law_elements_are_seen_as_they_are(es: Seq<Element>)
    ensures
        element_views(es).len() == es.len(),
        forall|i: int|
            0 <= i < es.len() ==> {
                let v = #[trigger] element_views(es)[i];
                &&& v.kind == es[i].kind
                &&& v.depth == es[i].depth
                &&& v.text == crate::text::opt_view(es[i].text)
            },
{
}

} // verus!
