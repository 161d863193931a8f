//! Texts in order, character by character.

use vstd::prelude::*;

use crate::text::chars_of;
use crate::text;

verus! {

/// How one text stands to another.
#[derive(Debug, Clone, Copy, PartialEq, Eq, Structural)]
pub enum Rank {
    Before,
    Same,
    After,
}

/// Whether `a` comes before `b`: at the first difference it has the smaller character, or it
/// ends first.
pub open spec fn before(a: Seq<char>, b: Seq<char>) -> bool
    decreases a.len(),
{
    if b.len() == 0 {
        false
    } else if a.len() == 0 {
        true
    } else if a[0] == b[0] {
        before(a.drop_first(), b.drop_first())
    } else {
        a[0] < b[0]
    }
}

pub open spec fn rank_of(a: Seq<char>, b: Seq<char>) -> Rank {
    if a == b {
        Rank::Same
    } else if before(a, b) {
        Rank::Before
    } else {
        Rank::After
    }
}

/// No text comes before itself.
pub proof fn lemma_irreflexive(a: Seq<char>)
    ensures
        !before(a, a),
    decreases a.len(),
{
    if a.len() > 0 {
        lemma_irreflexive(a.drop_first());
    }
}

pub proof fn lemma_transitive(a: Seq<char>, b: Seq<char>, c: Seq<char>)
    requires
        before(a, b),
        before(b, c),
    ensures
        before(a, c),
    decreases a.len(),
{
    if a.len() > 0 && b.len() > 0 && c.len() > 0 && a[0] == b[0] && b[0] == c[0] {
        lemma_transitive(a.drop_first(), b.drop_first(), c.drop_first());
    }
}

/// Of two different texts one comes before the other.
pub proof fn lemma_total(a: Seq<char>, b: Seq<char>)
    ensures
        a == b || before(a, b) || before(b, a),
    decreases a.len(),
{
    if a.len() > 0 && b.len() > 0 && a[0] == b[0] {
        lemma_total(a.drop_first(), b.drop_first());
        if a.drop_first() == b.drop_first() {
            assert(a =~= seq![a[0]] + a.drop_first());
            assert(b =~= seq![b[0]] + b.drop_first());
        }
    } else if a.len() == 0 && b.len() == 0 {
        assert(a =~= b);
    }
}

/// How `a` stands to `b`.
pub fn rank(a: &str, b: &str) -> (r: Rank)
    ensures
        r == rank_of(a@, b@),
{
    let x = chars_of(a);
    let y = chars_of(b);
    let mut i: usize = 0;
    proof {
        assert(x@.skip(0) =~= x@);
        assert(y@.skip(0) =~= y@);
    }
    while i < x.len() && i < y.len() && x[i] == y[i]
        invariant
            i <= x.len(),
            i <= y.len(),
            x@ == a@,
            y@ == b@,
            forall|j: int| 0 <= j < i ==> x@[j] == y@[j],
            before(x@.skip(i as int), y@.skip(i as int)) == before(a@, b@),
        decreases x.len() - i,
    {
        proof {
            assert(x@.skip(i as int).drop_first() =~= x@.skip(i + 1));
            assert(y@.skip(i as int).drop_first() =~= y@.skip(i + 1));
        }
        i = i + 1;
    }
    if i == x.len() && i == y.len() {
        assert(a@ =~= b@);
        Rank::Same
    } else if i == x.len() {
        assert(a@ != b@) by {
            assert(a@.len() < b@.len());
        }
        Rank::Before
    } else if i == y.len() {
        assert(a@ != b@) by {
            assert(a@.len() > b@.len());
        }
        Rank::After
    } else {
        assert(a@ != b@) by {
            assert(a@[i as int] != b@[i as int]);
        }
        if x[i] < y[i] {
            Rank::Before
        } else {
            Rank::After
        }
    }
}

/// Whether texts stand in order; equal ones may follow one another.
pub open spec fn in_order(ts: Seq<Seq<char>>) -> bool {
    forall|i: int, j: int|
        0 <= i < j < ts.len() ==> !before(#[trigger] ts[j], #[trigger] ts[i])
}

/// The position behind the last text that does not come after `key`.
fn position_for(ts: &Vec<String>, key: &String) -> (r: usize)
    requires
        in_order(text::views(ts@)),
    ensures
        r <= ts.len(),
        forall|i: int| 0 <= i < r ==> !before(key@, #[trigger] text::views(ts@)[i]),
        forall|i: int| r <= i < ts.len() ==> before(key@, #[trigger] text::views(ts@)[i]),
{
    let ghost vs = text::views(ts@);
    let mut i: usize = ts.len();
    while i > 0
        invariant
            i <= ts.len(),
            vs == text::views(ts@),
            in_order(vs),
            forall|j: int| i <= j < ts.len() ==> before(key@, #[trigger] vs[j]),
        decreases i,
    {
        proof {
            lemma_irreflexive(key@);
        }
        match rank(key.as_str(), ts[i - 1].as_str()) {
            Rank::Before => {},
            _ => {
                proof {
                    let last = vs[i - 1];
                    lemma_total(key@, last);
                    assert(!before(key@, last));
                    assert forall|j: int| 0 <= j < i implies !before(key@, #[trigger] vs[j]) by {
                        if j < i - 1 && before(key@, vs[j]) {
                            lemma_total(vs[j], last);
                            assert(!before(last, vs[j]));
                            if vs[j] != last {
                                lemma_transitive(key@, vs[j], last);
                            }
                        }
                    }
                }
                return i;
            },
        }
        i = i - 1;
    }
    0
}

/// The same texts in order.
pub fn sort_texts(texts: Vec<String>) -> (r: Vec<String>)
    ensures
        in_order(text::views(r@)),
        text::views(r@).to_multiset() == text::views(texts@).to_multiset(),
{
    let mut out: Vec<String> = Vec::new();
    let mut i: usize = 0;
    proof {
        assert(text::views(out@) =~= text::views(texts@).take(0));
    }
    while i < texts.len()
        invariant
            i <= texts.len(),
            in_order(text::views(out@)),
            text::views(out@).to_multiset() == text::views(texts@).take(i as int).to_multiset(),
        decreases texts.len() - i,
    {
        broadcast use vstd::seq_lib::group_to_multiset_ensures;

        let key = texts[i].clone();
        let ghost k = key@;
        let p: usize = position_for(&out, &key);
        let ghost vs = text::views(out@);
        out.insert(p, key);
        proof {
            let new = text::views(out@);
            assert(new =~= vs.insert(p as int, k));
            assert(in_order(new)) by {
                lemma_irreflexive(k);
                assert forall|a: int, b: int| 0 <= a < b < new.len() implies !before(
                    #[trigger] new[b],
                    #[trigger] new[a],
                ) by {
                    if a < p && b < p {
                        assert(new[a] == vs[a] && new[b] == vs[b]);
                    } else if a < p && b == p {
                        assert(new[a] == vs[a]);
                    } else if a < p {
                        assert(new[a] == vs[a] && new[b] == vs[b - 1]);
                    } else if a == p {
                        assert(new[b] == vs[b - 1]);
                        assert(before(k, vs[b - 1]));
                        if before(vs[b - 1], k) {
                            lemma_transitive(k, vs[b - 1], k);
                        }
                    } else {
                        assert(new[a] == vs[a - 1] && new[b] == vs[b - 1]);
                    }
                }
            }
            vstd::seq_lib::to_multiset_insert(vs, p as int, k);
            let so_far = text::views(texts@).take(i as int);
            let next = text::views(texts@).take(i + 1);
            assert(next =~= so_far.push(k));
            so_far.to_multiset_ensures();
        }
        i = i + 1;
    }
    assert(text::views(texts@).take(texts@.len() as int) =~= text::views(texts@));
    out
}

// ---------------------------------------------------------------------------
// Laws
// ---------------------------------------------------------------------------

/// Texts are ordered as in a dictionary: what comes first is told by the first character in which
/// they differ, and a text comes before those that go on behind it.
pub proof fn law_the_first_difference_decides(
    common: Seq<char>,
    x: char,
    y: char,
    a: Seq<char>,
    b: Seq<char>,
)
    ensures
        before(common + seq![x] + a, common + seq![y] + b) <==> x < y || x == y && before(a, b),
        before(common, common + seq![y] + b),
        !before(common + seq![y] + b, common),
    decreases common.len(),
{
    let p = common + seq![x] + a;
    let q = common + seq![y] + b;
    if common.len() == 0 {
        assert(p.drop_first() =~= a);
        assert(q.drop_first() =~= b);
    } else {
        law_the_first_difference_decides(common.drop_first(), x, y, a, b);
        assert(p.drop_first() =~= common.drop_first() + seq![x] + a);
        assert(q.drop_first() =~= common.drop_first() + seq![y] + b);
    }
}

/// Of any two texts exactly one of three holds: they are the same, the one comes first, or the
/// other does; and the one stands to the other as the other does not to it.
pub proof fn law_texts_are_ranked(a: Seq<char>, b: Seq<char>)
    ensures
        rank_of(a, b) == Rank::Same <==> a == b,
        rank_of(a, b) == Rank::Before <==> before(a, b),
        rank_of(a, b) == Rank::After <==> before(b, a),
{
    lemma_total(a, b);
    lemma_irreflexive(a);
    if before(a, b) && before(b, a) {
        lemma_transitive(a, b, a);
    }
}

/// Texts that stand in order never have a later one that comes before an earlier one, and putting
/// one behind them keeps them so exactly where none of them comes after it.
pub proof fn law_texts_in_order(ts: Seq<Seq<char>>, t: Seq<char>)
    ensures
        in_order(Seq::<Seq<char>>::empty()),
        in_order(ts.push(t)) <==> in_order(ts) && forall|i: int|
            0 <= i < ts.len() ==> !before(t, #[trigger] ts[i]),
{
    let all = ts.push(t);
    if in_order(all) {
        assert forall|i: int, j: int| 0 <= i < j < ts.len() implies !before(
            #[trigger] ts[j],
            #[trigger] ts[i],
        ) by {
            assert(!before(all[j], all[i]));
        }
        assert forall|i: int| 0 <= i < ts.len() implies !before(t, #[trigger] ts[i]) by {
            assert(!before(all[ts.len() as int], all[i]));
        }
    }
}

} // verus!
