//! The plan of a run: which query is sent when, and as which repetition.

use crate::types::{QueryReference, QueryReferenceWithRepetition};
use rand::seq::SliceRandom;
use vstd::arithmetic::div_mod::lemma_fundamental_div_mod_converse;
use vstd::arithmetic::mul::lemma_mul_is_distributive_add;
use vstd::prelude::*;
use vstd::seq_lib::{to_multiset_build, to_multiset_len};

verus! {

/// The references of a corpus of `n` queries in corpus order, `repeat` times over.
pub open spec fn expanded(n: nat, repeat: nat) -> Seq<QueryReference> {
    Seq::new(n * repeat, |i: int| QueryReference { query_index: (i % n as int) as u32 })
}

/// The references of the first `n` queries of a corpus, in corpus order.
pub open spec fn corpus_order(n: nat) -> Seq<QueryReference> {
    Seq::new(n, |i: int| QueryReference { query_index: i as u32 })
}

/// How often `q` occurs in `s`.
pub open spec fn occurrences(s: Seq<QueryReference>, q: QueryReference) -> nat
    decreases s.len(),
{
    if s.len() == 0 {
        0
    } else {
        occurrences(s.drop_last(), q) + if s.last() == q {
            1nat
        } else {
            0nat
        }
    }
}

/// The repetition of the instance at position `i` of a plan: how often its
/// reference was scheduled before.
pub open spec fn repetition_at(plan: Seq<QueryReference>, i: int) -> nat
    recommends
        0 <= i < plan.len(),
{
    occurrences(plan.take(i), plan[i])
}

/// Whether `plan` schedules each of `n` queries `repeat` times, in any order.
pub open spec fn is_plan(plan: Seq<QueryReference>, n: nat, repeat: nat) -> bool {
    plan.to_multiset() == expanded(n, repeat).to_multiset()
}

/// Whether some instance of the plan is repetition `k` of `q`.
pub open spec fn has_repetition(plan: Seq<QueryReference>, q: QueryReference, k: nat) -> bool {
    exists|i: int| 0 <= i < plan.len() && plan[i] == q && #[trigger] repetition_at(plan, i) == k
}

/// The instances of a plan: each reference with its repetition.
pub open spec fn instances(plan: Seq<QueryReference>) -> Seq<QueryReferenceWithRepetition> {
    Seq::new(
        plan.len(),
        |i: int|
            QueryReferenceWithRepetition {
                query_reference: plan[i],
                repetition: repetition_at(plan, i) as u32,
            },
    )
}

/// `rand::seq::SliceRandom::shuffle` on the references, with the generator
/// of the calling thread (`rand::thread_rng`). The shuffle only swaps
/// elements of the slice, so what it leaves is a rearrangement of what it
/// found; which one is up to the generator.
#[verifier::external_body]
fn shuffle(references: &mut Vec<QueryReference>)
    ensures
        final(references)@.to_multiset() == old(references)@.to_multiset(),
{
    references.shuffle(&mut rand::thread_rng());
}

/// The references of a run over a corpus of `n` queries: each query `repeat`
/// times, in corpus order and round after round, or in a random order where
/// `randomize` asks for one.
pub fn query_references(n: u32, repeat: usize, randomize: bool) -> (plan: Vec<QueryReference>)
    ensures
        is_plan(plan@, n as nat, repeat as nat),
        plan@.len() == n * repeat,
        !randomize ==> plan@ == expanded(n as nat, repeat as nat),
{
    let mut plan: Vec<QueryReference> = Vec::new();
    let mut round: usize = 0;
    while round < repeat
        invariant
            round <= repeat,
            plan@ == expanded(n as nat, round as nat),
        decreases repeat - round,
    {
        let mut query_index: u32 = 0;
        while query_index < n
            invariant
                query_index <= n,
                round < repeat,
                plan@.len() == n * round + query_index,
                plan@ == expanded(n as nat, round as nat) + corpus_order(query_index as nat),
            decreases n - query_index,
        {
            plan.push(QueryReference { query_index });
            query_index = query_index + 1;
        }
        proof {
            lemma_expanded_step(n as nat, round as nat);
        }
        round = round + 1;
    }
    if randomize {
        shuffle(&mut plan);
    }
    proof {
        to_multiset_len(plan@);
        to_multiset_len(expanded(n as nat, repeat as nat));
    }
    plan
}

/// The counters from which repetitions are dealt out: for each query of the
/// corpus, how often it has been scheduled so far.
#[derive(Debug)]
pub struct RepetitionCounter {
    counters: Vec<u32>,
}

impl RepetitionCounter {
    /// How often each query has been scheduled so far, by query index.
    pub closed spec fn counts(&self) -> Seq<nat> {
        Seq::new(self.counters@.len(), |i: int| self.counters@[i] as nat)
    }

    /// Counters for a corpus of `queries_len` queries, none scheduled yet.
    pub fn new(queries_len: usize) -> (r: Self)
        ensures
            r.counts() == Seq::new(queries_len as nat, |i: int| 0nat),
    {
        let counters = vec![0u32; queries_len];
        let r = RepetitionCounter { counters };
        proof {
            assert(r.counts() =~= Seq::new(queries_len as nat, |i: int| 0nat));
        }
        r
    }

    /// How often `reference` has been scheduled so far.
    pub fn count(&self, reference: QueryReference) -> (r: u32)
        requires
            reference.query_index < self.counts().len(),
        ensures
            r == self.counts()[reference.query_index as int],
    {
        self.counters[reference.query_index as usize]
    }

    /// Schedules `reference` once more: the instance gets the number of
    /// times the reference was scheduled before.
    pub fn assign(&mut self, reference: QueryReference) -> (r: QueryReferenceWithRepetition)
        requires
            reference.query_index < old(self).counts().len(),
            old(self).counts()[reference.query_index as int] < u32::MAX,
        ensures
            r.query_reference == reference,
            r.repetition == old(self).counts()[reference.query_index as int],
            final(self).counts() == old(self).counts().update(
                reference.query_index as int,
                old(self).counts()[reference.query_index as int] + 1,
            ),
    {
        let i = reference.query_index as usize;
        let repetition = self.counters[i];
        self.counters.set(i, repetition + 1);
        proof {
            assert(self.counts() =~= old(self).counts().update(
                reference.query_index as int,
                old(self).counts()[reference.query_index as int] + 1,
            ));
        }
        QueryReferenceWithRepetition { query_reference: reference, repetition }
    }
}

/// Gives each reference of a plan its repetition: the number of times the
/// same reference stands earlier in the plan.
pub fn query_references_with_repetitions(
    queries_len: usize,
    query_references: &Vec<QueryReference>,
) -> (r: Vec<QueryReferenceWithRepetition>)
    requires
        forall|i: int|
            0 <= i < query_references@.len() ==> (#[trigger] query_references@[i]).query_index
                < queries_len,
        forall|q: QueryReference| occurrences(query_references@, q) <= u32::MAX,
    ensures
        r@ == instances(query_references@),
{
    let mut counter = RepetitionCounter::new(queries_len);
    let mut out: Vec<QueryReferenceWithRepetition> = Vec::new();
    let mut i: usize = 0;
    while i < query_references.len()
        invariant
            i <= query_references@.len(),
            forall|k: int|
                0 <= k < query_references@.len() ==> (#[trigger] query_references@[k]).query_index
                    < queries_len,
            forall|q: QueryReference| occurrences(query_references@, q) <= u32::MAX,
            counter.counts().len() == queries_len,
            forall|q: QueryReference|
                q.query_index < queries_len ==> counter.counts()[q.query_index as int]
                    == #[trigger] occurrences(query_references@.take(i as int), q),
            out@ == instances(query_references@).take(i as int),
        decreases query_references@.len() - i,
    {
        let reference = query_references[i];
        proof {
            lemma_occurrences_take_step(query_references@, i as int, reference);
            lemma_occurrences_take_le(query_references@, i + 1, reference);
        }
        let instance = counter.assign(reference);
        out.push(instance);
        proof {
            assert forall|q: QueryReference| q.query_index < queries_len implies counter.counts()[
                q.query_index as int
            ] == #[trigger] occurrences(query_references@.take(i + 1), q) by {
                lemma_occurrences_take_step(query_references@, i as int, q);
            }
            assert(instances(query_references@)[i as int] == instance);
            assert(out@ =~= instances(query_references@).take(i + 1));
        }
        i = i + 1;
    }
    proof {
        assert(out@ =~= instances(query_references@));
    }
    out
}

/// Whether `instances` holds repetition `repetition` of query `query_index`.
pub open spec fn holds_instance(
    instances: Seq<QueryReferenceWithRepetition>,
    query_index: u32,
    repetition: u32,
) -> bool {
    exists|i: int|
        0 <= i < instances.len() && #[trigger] instances[i] == (QueryReferenceWithRepetition {
            query_reference: QueryReference { query_index },
            repetition,
        })
}

/// The instances of a run over a corpus of `n` queries, each query `repeat`
/// times, in corpus order and round after round, or in a random order where
/// `randomize` asks for one. There are `n` times `repeat` of them, and in
/// whatever order they stand, the repetitions of each query are the numbers
/// below `repeat`, each once and rising.
pub fn query_instances(n: u32, repeat: u32, randomize: bool) -> (r: Vec<
    QueryReferenceWithRepetition,
>)
    ensures
        r@.len() == n * repeat,
        exists|plan: Seq<QueryReference>|
            is_plan(plan, n as nat, repeat as nat) && r@ == #[trigger] instances(plan),
        !randomize ==> r@ == instances(expanded(n as nat, repeat as nat)),
        forall|i: int|
            0 <= i < r@.len() ==> (#[trigger] r@[i]).query_reference.query_index < n
                && r@[i].repetition < repeat,
        forall|i: int, j: int|
            0 <= i < j < r@.len() && (#[trigger] r@[i]).query_reference
                == (#[trigger] r@[j]).query_reference ==> r@[i].repetition < r@[j].repetition,
        forall|query_index: u32, repetition: u32|
            query_index < n && repetition < repeat ==> #[trigger] holds_instance(
                r@,
                query_index,
                repetition,
            ),
{
    let plan = query_references(n, repeat as usize, randomize);
    proof {
        lemma_plan_in_range(plan@, n as nat, repeat as nat);
    }
    let r = query_references_with_repetitions(n as usize, &plan);
    proof {
        lemma_instances_dense(plan@, n as nat, repeat as nat);
    }
    r
}

/// A plan over `n` queries with `repeat` rounds refers to queries of the
/// corpus only, and to each of them `repeat` times.
pub proof fn lemma_plan_in_range(plan: Seq<QueryReference>, n: nat, repeat: nat)
    requires
        n <= u32::MAX,
        is_plan(plan, n, repeat),
    ensures
        forall|i: int| 0 <= i < plan.len() ==> (#[trigger] plan[i]).query_index < n,
        forall|q: QueryReference|
            #[trigger] occurrences(plan, q) == if q.query_index < n {
                repeat
            } else {
                0nat
            },
{
    assert forall|q: QueryReference|
        #[trigger] occurrences(plan, q) == if q.query_index < n {
            repeat
        } else {
            0nat
        } by {
        lemma_occurrences_multiset(plan, q);
        lemma_occurrences_multiset(expanded(n, repeat), q);
        lemma_occurrences_expanded(n, repeat, q);
    }
    assert forall|i: int| 0 <= i < plan.len() implies (#[trigger] plan[i]).query_index < n by {
        lemma_occurrences_take_step(plan, i, plan[i]);
        lemma_occurrences_take_le(plan, i + 1, plan[i]);
        assert(occurrences(plan, plan[i]) >= 1);
    }
}

/// The instances of a plan over `n` queries with `repeat` rounds, where
/// repetitions can count to `repeat`: there are `n` times `repeat` of them,
/// and the repetitions of each query are the numbers below `repeat`, each
/// once and rising, in whatever order the plan stands.
pub proof fn lemma_instances_dense(plan: Seq<QueryReference>, n: nat, repeat: nat)
    requires
        n <= u32::MAX,
        repeat <= u32::MAX,
        is_plan(plan, n, repeat),
    ensures
        instances(plan).len() == n * repeat,
        forall|i: int|
            0 <= i < instances(plan).len() ==> (#[trigger] instances(
                plan,
            )[i]).query_reference.query_index < n && instances(plan)[i].repetition < repeat,
        forall|i: int, j: int|
            0 <= i < j < instances(plan).len() && (#[trigger] instances(plan)[i]).query_reference
                == (#[trigger] instances(plan)[j]).query_reference ==> instances(
                plan,
            )[i].repetition < instances(plan)[j].repetition,
        forall|query_index: u32, repetition: u32|
            query_index < n && repetition < repeat ==> #[trigger] holds_instance(
                instances(plan),
                query_index,
                repetition,
            ),
{
    let all = instances(plan);
    lemma_plan_length(plan, n, repeat);
    lemma_plan_in_range(plan, n, repeat);
    assert forall|i: int| 0 <= i < all.len() implies (#[trigger] all[i]).query_reference.query_index
        < n && all[i].repetition < repeat by {
        lemma_repetitions_dense(plan, n, repeat, plan[i]);
    }
    assert forall|i: int, j: int|
        0 <= i < j < all.len() && (#[trigger] all[i]).query_reference
            == (#[trigger] all[j]).query_reference implies all[i].repetition
        < all[j].repetition by {
        lemma_repetitions_dense(plan, n, repeat, plan[i]);
        assert(repetition_at(plan, i) < repetition_at(plan, j));
    }
    assert forall|query_index: u32, repetition: u32|
        query_index < n && repetition < repeat implies #[trigger] holds_instance(
        all,
        query_index,
        repetition,
    ) by {
        let q = QueryReference { query_index };
        lemma_repetitions_dense(plan, n, repeat, q);
        assert(has_repetition(plan, q, repetition as nat));
        let i = choose|i: int|
            0 <= i < plan.len() && plan[i] == q && #[trigger] repetition_at(plan, i)
                == repetition as nat;
        assert(all[i] == (QueryReferenceWithRepetition { query_reference: q, repetition }));
    }
}

/// Taking one more element of a plan counts it where it is the reference asked for.
pub proof fn lemma_occurrences_take_step(plan: Seq<QueryReference>, i: int, q: QueryReference)
    requires
        0 <= i < plan.len(),
    ensures
        occurrences(plan.take(i + 1), q) == occurrences(plan.take(i), q) + if plan[i] == q {
            1nat
        } else {
            0nat
        },
{
    assert(plan.take(i + 1).drop_last() =~= plan.take(i));
}

/// A reference occurs in a prefix of a plan at most as often as in the plan.
pub proof fn lemma_occurrences_take_le(plan: Seq<QueryReference>, i: int, q: QueryReference)
    requires
        0 <= i <= plan.len(),
    ensures
        occurrences(plan.take(i), q) <= occurrences(plan, q),
    decreases plan.len() - i,
{
    if i == plan.len() {
        assert(plan.take(i) =~= plan);
    } else {
        lemma_occurrences_take_step(plan, i, q);
        lemma_occurrences_take_le(plan, i + 1, q);
    }
}

/// Counting occurrences is counting in the multiset of the plan.
pub proof fn lemma_occurrences_multiset(plan: Seq<QueryReference>, q: QueryReference)
    ensures
        occurrences(plan, q) == plan.to_multiset().count(q),
    decreases plan.len(),
{
    broadcast use vstd::seq_lib::group_to_multiset_ensures;

    if plan.len() == 0 {
    } else {
        lemma_occurrences_multiset(plan.drop_last(), q);
        assert(plan.drop_last().push(plan.last()) =~= plan);
        to_multiset_build(plan.drop_last(), plan.last());
    }
}

/// Occurrences in two plans joined add up.
pub proof fn lemma_occurrences_concat(
    a: Seq<QueryReference>,
    b: Seq<QueryReference>,
    q: QueryReference,
)
    ensures
        occurrences(a + b, q) == occurrences(a, q) + occurrences(b, q),
    decreases b.len(),
{
    if b.len() == 0 {
        assert(a + b =~= a);
    } else {
        lemma_occurrences_concat(a, b.drop_last(), q);
        assert((a + b).drop_last() =~= a + b.drop_last());
    }
}

/// The corpus order holds each query of the corpus once.
proof fn lemma_occurrences_corpus_order(n: nat, q: QueryReference)
    requires
        n <= u32::MAX,
    ensures
        occurrences(corpus_order(n), q) == if q.query_index < n {
            1nat
        } else {
            0nat
        },
    decreases n,
{
    if n > 0 {
        lemma_occurrences_corpus_order((n - 1) as nat, q);
        assert(corpus_order(n).drop_last() =~= corpus_order((n - 1) as nat));
    }
}

/// A run of `repeat` rounds holds each query of the corpus `repeat` times.
pub proof fn lemma_occurrences_expanded(n: nat, repeat: nat, q: QueryReference)
    requires
        n <= u32::MAX,
    ensures
        occurrences(expanded(n, repeat), q) == if q.query_index < n {
            repeat
        } else {
            0nat
        },
    decreases repeat,
{
    if repeat == 0 {
        assert(n * 0 == 0);
    } else {
        lemma_occurrences_expanded(n, (repeat - 1) as nat, q);
        lemma_expanded_step(n, (repeat - 1) as nat);
        lemma_occurrences_corpus_order(n, q);
        lemma_occurrences_concat(expanded(n, (repeat - 1) as nat), corpus_order(n), q);
    }
}

/// A plan over `n` queries with `repeat` rounds holds `n` times `repeat`
/// instances, in whatever order it schedules them.
pub proof fn lemma_plan_length(plan: Seq<QueryReference>, n: nat, repeat: nat)
    requires
        is_plan(plan, n, repeat),
    ensures
        plan.len() == n * repeat,
        instances(plan).len() == n * repeat,
{
    to_multiset_len(plan);
    to_multiset_len(expanded(n, repeat));
}

/// Somewhere in a plan each reference stands for the `k`-th time, for every
/// `k` below the number of its occurrences.
proof fn lemma_occurrence_exists(plan: Seq<QueryReference>, q: QueryReference, k: nat)
    requires
        k < occurrences(plan, q),
    ensures
        has_repetition(plan, q, k),
    decreases plan.len(),
{
    let last = plan.len() - 1;
    if plan.last() == q && occurrences(plan.drop_last(), q) == k {
        assert(plan.take(last) =~= plan.drop_last());
        assert(repetition_at(plan, last) == k);
    } else {
        lemma_occurrence_exists(plan.drop_last(), q, k);
        let i = choose|i: int|
            0 <= i < plan.drop_last().len() && plan.drop_last()[i] == q && #[trigger] repetition_at(
                plan.drop_last(),
                i,
            ) == k;
        assert(plan.drop_last().take(i) =~= plan.take(i));
        assert(repetition_at(plan, i) == k);
    }
}

/// In a plan over `n` queries with `repeat` rounds, the repetitions of each
/// query of the corpus are exactly the numbers below `repeat`: none is as
/// large as `repeat`, each smaller one is dealt out, and none twice. This
/// holds of every order of the plan.
pub proof fn lemma_repetitions_dense(
    plan: Seq<QueryReference>,
    n: nat,
    repeat: nat,
    q: QueryReference,
)
    requires
        n <= u32::MAX,
        is_plan(plan, n, repeat),
        q.query_index < n,
    ensures
        forall|i: int|
            0 <= i < plan.len() && plan[i] == q ==> #[trigger] repetition_at(plan, i) < repeat,
        forall|k: nat| k < repeat ==> #[trigger] has_repetition(plan, q, k),
        forall|i: int, j: int|
            0 <= i < j < plan.len() && plan[i] == q && plan[j] == q ==> #[trigger] repetition_at(
                plan,
                i,
            ) < #[trigger] repetition_at(plan, j),
{
    lemma_occurrences_multiset(plan, q);
    lemma_occurrences_multiset(expanded(n, repeat), q);
    lemma_occurrences_expanded(n, repeat, q);
    assert(occurrences(plan, q) == repeat);
    assert forall|i: int| 0 <= i < plan.len() && plan[i] == q implies #[trigger] repetition_at(
        plan,
        i,
    ) < repeat by {
        lemma_occurrences_take_step(plan, i, q);
        lemma_occurrences_take_le(plan, i + 1, q);
    }
    assert forall|k: nat| k < repeat implies #[trigger] has_repetition(plan, q, k) by {
        lemma_occurrence_exists(plan, q, k);
    }
    assert forall|i: int, j: int|
        0 <= i < j < plan.len() && plan[i] == q && plan[j] == q implies #[trigger] repetition_at(
        plan,
        i,
    ) < #[trigger] repetition_at(plan, j) by {
        lemma_occurrences_take_step(plan, i, q);
        lemma_occurrences_take_le(plan.take(j), i + 1, q);
        assert(plan.take(j).take(i + 1) =~= plan.take(i + 1));
    }
}

/// One more round appends the corpus order once.
proof fn lemma_expanded_step(n: nat, round: nat)
    ensures
        expanded(n, round + 1) == expanded(n, round) + corpus_order(n),
{
    let base = corpus_order(n);
    let next = expanded(n, round + 1);
    let joined = expanded(n, round) + base;
    lemma_mul_is_distributive_add(n as int, round as int, 1);
    assert(n * (round + 1) == n * round + n);
    assert(next.len() == joined.len());
    assert forall|i: int| 0 <= i < next.len() implies next[i] == joined[i] by {
        if i < n * round {
        } else {
            assert(n > 0) by (nonlinear_arith)
                requires
                    0 <= i < n * (round + 1),
            ;
            assert(round * n == n * round) by (nonlinear_arith);
            lemma_fundamental_div_mod_converse(i, n as int, round as int, i - n * round);
        }
    }
    assert(next =~= joined);
}

} // verus!
