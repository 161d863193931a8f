//! Statistics of a circuit's intermediate representation.

use vstd::prelude::*;

use crate::json::Json;
use crate::order::{rank, Rank};
use crate::order;
use crate::text::decimal;
use crate::text;

verus! {

broadcast use vstd::string::group_string_axioms;

#[derive(Debug, Clone, Copy, PartialEq, Eq, Structural)]
pub struct ZkirVersion {
    pub major: u32,
    pub minor: u32,
}

#[derive(Debug)]
pub struct Instruction {
    pub op: String,
    /// The operands, which vary with the opcode.
    pub rest: Vec<(String, Json)>,
}

#[derive(Debug)]
pub struct Zkir {
    pub version: ZkirVersion,
    pub do_communications_commitment: bool,
    pub num_inputs: u64,
    pub instructions: Vec<Instruction>,
}

#[derive(Debug)]
pub struct ZkirStats {
    pub circuit: String,
    pub instruction_count: usize,
    pub num_inputs: u64,
    pub version: String,
    /// How often each opcode occurs, in the order of the opcodes.
    pub opcodes: Vec<(String, usize)>,
}

/// The opcodes of the instructions, in order.
pub open spec fn ops(is: Seq<Instruction>) -> Seq<Seq<char>> {
    Seq::new(is.len(), |i: int| is[i].op@)
}

/// How often `op` stands in `all`.
pub open spec fn occurrences(all: Seq<Seq<char>>, op: Seq<char>) -> nat
    decreases all.len(),
{
    if all.len() == 0 {
        0
    } else {
        occurrences(all.drop_last(), op) + if all.last() == op {
            1nat
        } else {
            0nat
        }
    }
}

pub open spec fn count_views(h: Seq<(String, usize)>) -> Seq<(Seq<char>, nat)> {
    Seq::new(h.len(), |i: int| (h[i].0@, h[i].1 as nat))
}

/// Whether `h` is the histogram of `all`: every opcode that occurs stands in it once, with the
/// number of its occurrences, and the opcodes stand in order.
pub open spec fn histogram(h: Seq<(Seq<char>, nat)>, all: Seq<Seq<char>>) -> bool {
    &&& forall|i: int, j: int|
        0 <= i < j < h.len() ==> order::before((#[trigger] h[i]).0, (#[trigger] h[j]).0)
    &&& forall|i: int|
        0 <= i < h.len() ==> (#[trigger] h[i]).1 == occurrences(all, h[i].0) && h[i].1 > 0
    &&& forall|k: int|
        0 <= k < all.len() ==> exists|i: int| 0 <= i < h.len() && (#[trigger] h[i]).0 == #[trigger] all[k]
}

/// The sum of the counts.
pub open spec fn total(h: Seq<(Seq<char>, nat)>) -> nat
    decreases h.len(),
{
    if h.len() == 0 {
        0
    } else {
        total(h.drop_last()) + h.last().1
    }
}

proof fn lemma_occurs(all: Seq<Seq<char>>, op: Seq<char>)
    requires
        occurrences(all, op) > 0,
    ensures
        exists|k: int| 0 <= k < all.len() && #[trigger] all[k] == op,
    decreases all.len(),
{
    if all.last() == op {
        assert(all[all.len() - 1] == op);
    } else {
        lemma_occurs(all.drop_last(), op);
        let k = choose|k: int| 0 <= k < all.len() - 1 && #[trigger] all.drop_last()[k] == op;
        assert(all[k] == op);
    }
}

proof fn lemma_occurrences_bound(all: Seq<Seq<char>>, op: Seq<char>)
    ensures
        occurrences(all, op) <= all.len(),
    decreases all.len(),
{
    if all.len() > 0 {
        lemma_occurrences_bound(all.drop_last(), op);
    }
}

/// One more occurrence of an opcode that stands in the histogram at `p`.
proof fn lemma_count_up(h: Seq<(Seq<char>, nat)>, all: Seq<Seq<char>>, op: Seq<char>, p: int)
    requires
        histogram(h, all),
        0 <= p < h.len(),
        h[p].0 == op,
    ensures
        histogram(h.update(p, (op, h[p].1 + 1)), all.push(op)),
{
    let new = h.update(p, (op, h[p].1 + 1));
    let more = all.push(op);
    assert(more.drop_last() =~= all);
    assert forall|i: int, j: int| 0 <= i < j < new.len() implies order::before(
        (#[trigger] new[i]).0,
        (#[trigger] new[j]).0,
    ) by {
        assert(new[i].0 == h[i].0 && new[j].0 == h[j].0);
    }
    assert forall|i: int| 0 <= i < new.len() implies (#[trigger] new[i]).1 == occurrences(
        more,
        new[i].0,
    ) && new[i].1 > 0 by {
        assert(h[i].1 == occurrences(all, h[i].0));
        if i != p {
            if h[i].0 == op {
                order::lemma_irreflexive(op);
                if i < p {
                    assert(order::before(h[i].0, h[p].0));
                } else {
                    assert(order::before(h[p].0, h[i].0));
                }
            }
        }
    }
    assert forall|k: int| 0 <= k < more.len() implies exists|i: int|
        0 <= i < new.len() && (#[trigger] new[i]).0 == #[trigger] more[k] by {
        if k < all.len() {
            let i = choose|i: int| 0 <= i < h.len() && (#[trigger] h[i]).0 == all[k];
            assert(new[i].0 == more[k]);
        } else {
            assert(new[p].0 == more[k]);
        }
    }
}

/// The first occurrence of an opcode, which belongs at `p`.
proof fn lemma_count_first(h: Seq<(Seq<char>, nat)>, all: Seq<Seq<char>>, op: Seq<char>, p: int)
    requires
        histogram(h, all),
        0 <= p <= h.len(),
        forall|i: int| 0 <= i < p ==> order::before((#[trigger] h[i]).0, op),
        forall|i: int| p <= i < h.len() ==> order::before(op, (#[trigger] h[i]).0),
    ensures
        histogram(h.insert(p, (op, 1)), all.push(op)),
{
    let new = h.insert(p, (op, 1));
    let more = all.push(op);
    assert(more.drop_last() =~= all);
    order::lemma_irreflexive(op);
    assert(occurrences(all, op) == 0) by {
        if occurrences(all, op) > 0 {
            lemma_occurs(all, op);
            let k = choose|k: int| 0 <= k < all.len() && #[trigger] all[k] == op;
            let i = choose|i: int| 0 <= i < h.len() && (#[trigger] h[i]).0 == all[k];
            assert(h[i].0 == op);
        }
    }
    assert forall|i: int, j: int| 0 <= i < j < new.len() implies order::before(
        (#[trigger] new[i]).0,
        (#[trigger] new[j]).0,
    ) by {
        let a = if i < p {
            i
        } else {
            i - 1
        };
        let b = if j < p {
            j
        } else {
            j - 1
        };
        if i == p {
            assert(new[j] == h[b]);
        } else if j == p {
            assert(new[i] == h[a]);
        } else {
            assert(new[i] == h[a] && new[j] == h[b]);
        }
    }
    assert forall|i: int| 0 <= i < new.len() implies (#[trigger] new[i]).1 == occurrences(
        more,
        new[i].0,
    ) && new[i].1 > 0 by {
        if i != p {
            let a = if i < p {
                i
            } else {
                i - 1
            };
            assert(new[i] == h[a]);
            assert(h[a].0 != op);
        }
    }
    assert forall|k: int| 0 <= k < more.len() implies exists|i: int|
        0 <= i < new.len() && (#[trigger] new[i]).0 == #[trigger] more[k] by {
        if k < all.len() {
            let i = choose|i: int| 0 <= i < h.len() && (#[trigger] h[i]).0 == all[k];
            let b = if i < p {
                i
            } else {
                i + 1
            };
            assert(new[b].0 == more[k]);
        } else {
            assert(new[p].0 == more[k]);
        }
    }
}

/// Counts one more occurrence of `op`.
fn count(h: &mut Vec<(String, usize)>, op: &String, Ghost(all): Ghost<Seq<Seq<char>>>)
    requires
        histogram(count_views(old(h)@), all),
        all.len() < usize::MAX,
    ensures
        histogram(count_views(final(h)@), all.push(op@)),
{
    let ghost vs = count_views(h@);
    let mut p: usize = 0;
    while p < h.len()
        invariant
            p <= h.len(),
            h@ == old(h)@,
            vs == count_views(h@),
            histogram(vs, all),
            all.len() < usize::MAX,
            forall|i: int| 0 <= i < p ==> order::before((#[trigger] vs[i]).0, op@),
        decreases h.len() - p,
    {
        match rank(op.as_str(), h[p].0.as_str()) {
            Rank::Same => {
                proof {
                    lemma_occurrences_bound(all, op@);
                    assert(vs[p as int].1 == occurrences(all, vs[p as int].0));
                    lemma_count_up(vs, all, op@, p as int);
                }
                let n: usize = h[p].1;
                h.set(p, (op.clone(), n + 1));
                assert(count_views(h@) =~= vs.update(p as int, (op@, vs[p as int].1 + 1)));
                return;
            },
            Rank::Before => {
                proof {
                    assert forall|i: int| p <= i < vs.len() implies order::before(
                        op@,
                        (#[trigger] vs[i]).0,
                    ) by {
                        if i > p {
                            order::lemma_transitive(op@, vs[p as int].0, vs[i].0);
                        }
                    }
                    lemma_count_first(vs, all, op@, p as int);
                }
                h.insert(p, (op.clone(), 1));
                assert(count_views(h@) =~= vs.insert(p as int, (op@, 1)));
                return;
            },
            Rank::After => {
                proof {
                    order::lemma_total(op@, vs[p as int].0);
                }
            },
        }
        p = p + 1;
    }
    proof {
        lemma_count_first(vs, all, op@, p as int);
    }
    h.push((op.clone(), 1));
    assert(count_views(h@) =~= vs.insert(p as int, (op@, 1)));
}

impl ZkirStats {
    /// The statistics of one circuit.
    pub fn from_zkir(circuit: &str, z: &Zkir) -> (r: ZkirStats)
        ensures
            r.circuit@ == circuit@,
            r.instruction_count == z.instructions.len(),
            r.num_inputs == z.num_inputs,
            r.version@ == text::dec(z.version.major as nat) + "."@ + text::dec(
                z.version.minor as nat,
            ),
            histogram(count_views(r.opcodes@), ops(z.instructions@)),
    {
        let mut opcodes: Vec<(String, usize)> = Vec::new();
        let mut i: usize = 0;
        let ghost all = ops(z.instructions@);
        assert(count_views(opcodes@) =~= Seq::<(Seq<char>, nat)>::empty());
        while i < z.instructions.len()
            invariant
                i <= z.instructions.len(),
                all == ops(z.instructions@),
                histogram(count_views(opcodes@), all.take(i as int)),
            decreases z.instructions.len() - i,
        {
            proof {
                assert(all.take(i + 1) =~= all.take(i as int).push(z.instructions@[i as int].op@));
            }
            count(&mut opcodes, &z.instructions[i].op, Ghost(all.take(i as int)));
            i = i + 1;
        }
        assert(all.take(all.len() as int) =~= all);
        let mut version = decimal(z.version.major as u128);
        version.append(".");
        version.append(decimal(z.version.minor as u128).as_str());
        ZkirStats {
            circuit: circuit.to_owned(),
            instruction_count: z.instructions.len(),
            num_inputs: z.num_inputs,
            version,
            opcodes,
        }
    }
}

/// A sequence has only one histogram.
pub proof fn law_histogram_is_unique(
    a: Seq<(Seq<char>, nat)>,
    b: Seq<(Seq<char>, nat)>,
    all: Seq<Seq<char>>,
)
    requires
        histogram(a, all),
        histogram(b, all),
    ensures
        a == b,
{
    lemma_same_prefix(a, b, all, if a.len() < b.len() {
        a.len() as int
    } else {
        b.len() as int
    });
    lemma_not_longer(a, b, all);
    lemma_not_longer(b, a, all);
    assert(a =~= b);
}

/// Every opcode of one histogram stands in the other.
proof fn lemma_stands_in(
    a: Seq<(Seq<char>, nat)>,
    b: Seq<(Seq<char>, nat)>,
    all: Seq<Seq<char>>,
    i: int,
) -> (j: int)
    requires
        histogram(a, all),
        histogram(b, all),
        0 <= i < a.len(),
    ensures
        0 <= j < b.len(),
        b[j].0 == a[i].0,
{
    assert(a[i].1 == occurrences(all, a[i].0));
    lemma_occurs(all, a[i].0);
    let k = choose|k: int| 0 <= k < all.len() && #[trigger] all[k] == a[i].0;
    choose|j: int| 0 <= j < b.len() && (#[trigger] b[j]).0 == all[k]
}

proof fn lemma_same_prefix(
    a: Seq<(Seq<char>, nat)>,
    b: Seq<(Seq<char>, nat)>,
    all: Seq<Seq<char>>,
    n: int,
)
    requires
        histogram(a, all),
        histogram(b, all),
        0 <= n <= a.len(),
        n <= b.len(),
    ensures
        forall|i: int| 0 <= i < n ==> a[i] == b[i],
    decreases n,
{
    if n > 0 {
        lemma_same_prefix(a, b, all, n - 1);
        let m = n - 1;
        let j = lemma_stands_in(a, b, all, m);
        let i = lemma_stands_in(b, a, all, m);
        order::lemma_irreflexive(a[m].0);
        order::lemma_irreflexive(b[m].0);
        if j < m {
            assert(a[j] == b[j]);
            assert(order::before(a[j].0, a[m].0));
        } else if i < m {
            assert(a[i] == b[i]);
            assert(order::before(b[i].0, b[m].0));
        } else if j > m && i > m {
            assert(order::before(b[m].0, b[j].0));
            assert(order::before(a[m].0, a[i].0));
            order::lemma_transitive(a[m].0, b[m].0, a[m].0);
        }
        assert(a[m].0 == b[m].0);
        assert(a[m].1 == occurrences(all, a[m].0));
        assert(b[m].1 == occurrences(all, b[m].0));
    }
}

proof fn lemma_not_longer(
    a: Seq<(Seq<char>, nat)>,
    b: Seq<(Seq<char>, nat)>,
    all: Seq<Seq<char>>,
)
    requires
        histogram(a, all),
        histogram(b, all),
        forall|i: int| 0 <= i < a.len() && i < b.len() ==> a[i] == b[i],
    ensures
        b.len() <= a.len(),
{
    if a.len() < b.len() {
        let n = a.len() as int;
        let j = lemma_stands_in(b, a, all, n);
        assert(a[j] == b[j]);
        assert(order::before(b[j].0, b[n].0));
        order::lemma_irreflexive(b[n].0);
    }
}

/// The counts of a histogram add up to the number of instructions.
pub proof fn law_counts_add_up(h: Seq<(Seq<char>, nat)>, all: Seq<Seq<char>>)
    requires
        histogram(h, all),
    ensures
        total(h) == all.len(),
{
    let keys = Seq::new(h.len(), |i: int| h[i].0);
    assert(total(h) == occurrence_sum(keys, all)) by {
        lemma_total_is_sum(h, all, h.len() as int);
        assert(h.take(h.len() as int) =~= h);
        assert(keys.take(h.len() as int) =~= keys);
    }
    assert forall|i: int, j: int| 0 <= i < j < keys.len() implies #[trigger] keys[i]
        != #[trigger] keys[j] by {
        assert(order::before(h[i].0, h[j].0));
        order::lemma_irreflexive(keys[i]);
    }
    assert forall|k: int| 0 <= k < all.len() implies keys.contains(#[trigger] all[k]) by {
        let i = choose|i: int| 0 <= i < h.len() && (#[trigger] h[i]).0 == all[k];
        assert(keys[i] == all[k]);
    }
    lemma_sum_counts_all(keys, all);
}

/// The occurrences of all `keys`, added up.
spec fn occurrence_sum(keys: Seq<Seq<char>>, all: Seq<Seq<char>>) -> nat
    decreases keys.len(),
{
    if keys.len() == 0 {
        0
    } else {
        occurrence_sum(keys.drop_last(), all) + occurrences(all, keys.last())
    }
}

proof fn lemma_total_is_sum(h: Seq<(Seq<char>, nat)>, all: Seq<Seq<char>>, n: int)
    requires
        histogram(h, all),
        0 <= n <= h.len(),
    ensures
        total(h.take(n)) == occurrence_sum(Seq::new(h.len(), |i: int| h[i].0).take(n), all),
    decreases n,
{
    let keys = Seq::new(h.len(), |i: int| h[i].0);
    if n > 0 {
        lemma_total_is_sum(h, all, n - 1);
        assert(h.take(n).drop_last() =~= h.take(n - 1));
        assert(keys.take(n).drop_last() =~= keys.take(n - 1));
        assert(h[n - 1].1 == occurrences(all, h[n - 1].0));
    }
}

proof fn lemma_sum_of_push(keys: Seq<Seq<char>>, all: Seq<Seq<char>>, x: Seq<char>)
    ensures
        occurrence_sum(keys, all.push(x)) == occurrence_sum(keys, all) + occurrences(keys, x),
    decreases keys.len(),
{
    if keys.len() > 0 {
        lemma_sum_of_push(keys.drop_last(), all, x);
        assert(all.push(x).drop_last() =~= all);
    }
}

proof fn lemma_occurs_once(keys: Seq<Seq<char>>, x: Seq<char>)
    requires
        forall|i: int, j: int|
            0 <= i < j < keys.len() ==> #[trigger] keys[i] != #[trigger] keys[j],
    ensures
        occurrences(keys, x) == if keys.contains(x) {
            1nat
        } else {
            0nat
        },
    decreases keys.len(),
{
    if keys.len() > 0 {
        let before = keys.drop_last();
        assert forall|i: int, j: int| 0 <= i < j < before.len() implies #[trigger] before[i]
            != #[trigger] before[j] by {
            assert(keys[i] != keys[j]);
        }
        lemma_occurs_once(before, x);
        if keys.last() == x {
            assert(keys[keys.len() - 1] == x);
            if before.contains(x) {
                let i = choose|i: int| 0 <= i < before.len() && before[i] == x;
                assert(keys[i] != keys[keys.len() - 1]);
            }
        } else if keys.contains(x) {
            let i = choose|i: int| 0 <= i < keys.len() && keys[i] == x;
            assert(before[i] == x);
        } else if before.contains(x) {
            let i = choose|i: int| 0 <= i < before.len() && before[i] == x;
            assert(keys[i] == x);
        }
    }
}

proof fn lemma_sum_counts_all(keys: Seq<Seq<char>>, all: Seq<Seq<char>>)
    requires
        forall|i: int, j: int|
            0 <= i < j < keys.len() ==> #[trigger] keys[i] != #[trigger] keys[j],
        forall|k: int| 0 <= k < all.len() ==> keys.contains(#[trigger] all[k]),
    ensures
        occurrence_sum(keys, all) == all.len(),
    decreases all.len(),
{
    if all.len() == 0 {
        lemma_sum_of_nothing(keys, all);
    } else {
        let before = all.drop_last();
        assert forall|k: int| 0 <= k < before.len() implies keys.contains(#[trigger] before[k]) by {
            assert(before[k] == all[k]);
        }
        lemma_sum_counts_all(keys, before);
        assert(before.push(all.last()) =~= all);
        lemma_sum_of_push(keys, before, all.last());
        assert(keys.contains(all[all.len() - 1]));
        lemma_occurs_once(keys, all.last());
    }
}

proof fn lemma_sum_of_nothing(keys: Seq<Seq<char>>, all: Seq<Seq<char>>)
    requires
        all.len() == 0,
    ensures
        occurrence_sum(keys, all) == 0,
    decreases keys.len(),
{
    if keys.len() > 0 {
        lemma_sum_of_nothing(keys.drop_last(), all);
    }
}

/// Every instruction counts once under its own opcode, and under no other.
pub proof fn law_instructions_count_under_their_opcode(
    is: Seq<Instruction>,
    i: Instruction,
    op: Seq<char>,
)
    ensures
        occurrences(ops(Seq::<Instruction>::empty()), op) == 0,
        occurrences(ops(is.push(i)), op) == occurrences(ops(is), op) + if i.op@ == op {
            1nat
        } else {
            0nat
        },
        ops(is).len() == is.len(),
{
    assert(ops(is.push(i)).drop_last() =~= ops(is));
    assert(ops(is.push(i)).last() == i.op@);
}

/// The histogram tells of an opcode exactly how often it occurs, and of one that does not occur
/// nothing.
pub proof fn law_the_histogram_tells_every_opcode(
    h: Seq<(Seq<char>, nat)>,
    is: Seq<Instruction>,
    op: Seq<char>,
)
    requires
        histogram(h, ops(is)),
    ensures
        occurrences(ops(is), op) > 0 ==> h.contains((op, occurrences(ops(is), op))),
        occurrences(ops(is), op) == 0 ==> forall|i: int|
            0 <= i < h.len() ==> (#[trigger] h[i]).0 != op,
        forall|k: int| 0 <= k < is.len() && (#[trigger] is[k]).op@ == op ==> occurrences(ops(is), op)
            > 0,
{
    let all = ops(is);
    if occurrences(all, op) > 0 {
        lemma_occurs(all, op);
        let k = choose|k: int| 0 <= k < all.len() && #[trigger] all[k] == op;
        let i = choose|i: int| 0 <= i < h.len() && (#[trigger] h[i]).0 == all[k];
        assert(h[i] == (op, occurrences(all, op)));
    } else {
        assert forall|i: int| 0 <= i < h.len() implies (#[trigger] h[i]).0 != op by {}
    }
    assert forall|k: int| 0 <= k < is.len() && (#[trigger] is[k]).op@ == op implies occurrences(
        ops(is),
        op,
    ) > 0 by {
        assert(all[k] == op);
        let i = choose|i: int| 0 <= i < h.len() && (#[trigger] h[i]).0 == all[k];
        assert(h[i].1 == occurrences(all, h[i].0) && h[i].1 > 0);
    }
}

/// Counts are seen in their order, each with its own opcode.
pub proof fn law_counts_are_seen_as_they_are(h: Seq<(String, usize)>)
    ensures
        count_views(h).len() == h.len(),
        forall|i: int|
            0 <= i < h.len() ==> (#[trigger] count_views(h)[i]).0 == h[i].0@ && count_views(h)[i].1
                == h[i].1,
{
}

/// The opcodes of a histogram stand in the order of a dictionary, each once.
pub proof fn law_opcodes_stand_in_order(
    h: Seq<(Seq<char>, nat)>,
    all: Seq<Seq<char>>,
    i: int,
    j: int,
)
    requires
        histogram(h, all),
        0 <= i < j < h.len(),
    ensures
        order::rank_of(h[i].0, h[j].0) == order::Rank::Before,
        h[i].0 != h[j].0,
{
    order::law_texts_are_ranked(h[i].0, h[j].0);
    order::lemma_irreflexive(h[i].0);
}

} // verus!
