use vstd::prelude::*;
use vstd::seq_lib::{to_multiset_build, to_multiset_contains, to_multiset_remove};

verus! {

/// Run-wide totals: summed input sizes, summed reported output sizes and the
/// number of files that were counted.
#[derive(Clone, Copy, Debug, PartialEq, Eq, Structural)]
pub struct Stats {
    pub input_size: u64,
    pub output_size: u64,
    pub count: u64,
}

/// Totals as unbounded integers: (input, output, count).
pub type Totals = (int, int, int);

impl View for Stats {
    type V = Totals;

    open spec fn view(&self) -> Totals {
        (self.input_size as int, self.output_size as int, self.count as int)
    }
}

/// The combining operation of the reduction: field-wise addition.
pub open spec fn plus(a: Totals, b: Totals) -> Totals {
    (a.0 + b.0, a.1 + b.1, a.2 + b.2)
}

/// The identity of `plus`.
pub open spec fn zero_totals() -> Totals {
    (0, 0, 0)
}

/// Whether unbounded totals can be held by a `Stats`.
pub open spec fn fits(t: Totals) -> bool {
    0 <= t.0 <= u64::MAX && 0 <= t.1 <= u64::MAX && 0 <= t.2 <= u64::MAX
}

/// Sequential reduction of a list of per-file results, left to right.
pub open spec fn sum_of(s: Seq<Stats>) -> Totals
    decreases s.len(),
{
    if s.len() == 0 {
        zero_totals()
    } else {
        plus(sum_of(s.drop_last()), s.last()@)
    }
}

/// Reduction of each group on its own, then of the group totals.
pub open spec fn sum_of_groups(groups: Seq<Seq<Stats>>) -> Totals
    decreases groups.len(),
{
    if groups.len() == 0 {
        zero_totals()
    } else {
        plus(sum_of_groups(groups.drop_last()), sum_of(groups.last()))
    }
}

impl Stats {
    /// The identity of the reduction.
    pub fn zero() -> (r: Stats)
        ensures
            r@ == zero_totals(),
    {
        Stats { input_size: 0, output_size: 0, count: 0 }
    }

    /// Combines two partial results.
    pub fn combine(&self, other: &Stats) -> (r: Stats)
        requires
            fits(plus(self@, other@)),
        ensures
            r@ == plus(self@, other@),
    {
        Stats {
            input_size: self.input_size + other.input_size,
            output_size: self.output_size + other.output_size,
            count: self.count + other.count,
        }
    }

    /// Combines two partial results, or gives `None` where a total would not
    /// fit in 64 bits.
    pub fn checked_combine(&self, other: &Stats) -> (r: Option<Stats>)
        ensures
            r is Some <==> fits(plus(self@, other@)),
            r matches Some(s) ==> s@ == plus(self@, other@),
    {
        if self.input_size > u64::MAX - other.input_size || self.output_size > u64::MAX
            - other.output_size || self.count > u64::MAX - other.count {
            None
        } else {
            Some(self.combine(other))
        }
    }
}

/// Reduces a list of per-file results from left to right; `None` where a total
/// does not fit in 64 bits.
pub fn aggregate(results: &Vec<Stats>) -> (r: Option<Stats>)
    ensures
        r is Some <==> fits(sum_of(results@)),
        r matches Some(s) ==> s@ == sum_of(results@),
{
    let mut acc = Stats::zero();
    let mut i: usize = 0;
    while i < results.len()
        invariant
            i <= results.len(),
            acc@ == sum_of(results@.subrange(0, i as int)),
        decreases results.len() - i,
    {
        proof {
            assert(results@.subrange(0, i as int + 1).drop_last() =~= results@.subrange(
                0,
                i as int,
            ));
        }
        match acc.checked_combine(&results[i]) {
            Some(next) => {
                acc = next;
            },
            None => {
                proof {
                    lemma_prefix_bounded(results@, i as int + 1);
                }
                return None;
            },
        }
        i = i + 1;
    }
    proof {
        assert(results@.subrange(0, i as int) =~= results@);
    }
    Some(acc)
}

/// Every prefix total is at most the total of the whole list.
proof fn lemma_prefix_bounded(s: Seq<Stats>, k: int)
    requires
        0 <= k <= s.len(),
    ensures
        0 <= sum_of(s.subrange(0, k)).0 <= sum_of(s).0,
        0 <= sum_of(s.subrange(0, k)).1 <= sum_of(s).1,
        0 <= sum_of(s.subrange(0, k)).2 <= sum_of(s).2,
    decreases s.len() - k,
{
    if k == s.len() {
        assert(s.subrange(0, k) =~= s);
        lemma_sum_nonneg(s);
    } else {
        lemma_prefix_bounded(s, k + 1);
        lemma_sum_nonneg(s.subrange(0, k));
        assert(s.subrange(0, k + 1).drop_last() =~= s.subrange(0, k));
        assert(s.subrange(0, k + 1).last() == s[k]);
    }
}

proof fn lemma_sum_nonneg(s: Seq<Stats>)
    ensures
        sum_of(s).0 >= 0 && sum_of(s).1 >= 0 && sum_of(s).2 >= 0,
    decreases s.len(),
{
    if s.len() > 0 {
        lemma_sum_nonneg(s.drop_last());
    }
}

/// The combining operation is associative.
pub proof fn lemma_plus_associative(a: Totals, b: Totals, c: Totals)
    ensures
        plus(plus(a, b), c) == plus(a, plus(b, c)),
{
}

/// The combining operation is commutative.
pub proof fn lemma_plus_commutative(a: Totals, b: Totals)
    ensures
        plus(a, b) == plus(b, a),
{
}

/// The empty result is the identity of the combining operation.
pub proof fn lemma_plus_identity(a: Totals)
    ensures
        plus(zero_totals(), a) == a,
        plus(a, zero_totals()) == a,
{
}

/// Reducing two halves of a list and combining them gives the total of the
/// whole list.
pub proof fn lemma_sum_concat(a: Seq<Stats>, b: Seq<Stats>)
    ensures
        sum_of(a + b) == plus(sum_of(a), sum_of(b)),
    decreases b.len(),
{
    if b.len() == 0 {
        assert(a + b =~= a);
    } else {
        lemma_sum_concat(a, b.drop_last());
        assert((a + b).drop_last() =~= a + b.drop_last());
    }
}

/// The order of the two halves does not matter.
pub proof fn lemma_sum_swap(a: Seq<Stats>, b: Seq<Stats>)
    ensures
        sum_of(a + b) == sum_of(b + a),
{
    lemma_sum_concat(a, b);
    lemma_sum_concat(b, a);
}

/// Partitioning a list into consecutive groups, reducing each group on its own
/// and then reducing the group totals gives the same totals as reducing the
/// whole list sequentially.
pub proof fn lemma_sum_groups(groups: Seq<Seq<Stats>>)
    ensures
        sum_of_groups(groups) == sum_of(groups.flatten()),
    decreases groups.len(),
{
    if groups.len() == 0 {
        assert(groups.flatten() =~= Seq::<Stats>::empty());
    } else {
        lemma_sum_groups(groups.drop_last());
        assert(groups =~= groups.drop_last().push(groups.last()));
        groups.drop_last().lemma_flatten_push(groups.last());
        lemma_sum_concat(groups.drop_last().flatten(), groups.last());
    }
}

/// Reordering the per-file results in any way leaves the totals unchanged.
pub proof fn lemma_sum_permutation(a: Seq<Stats>, b: Seq<Stats>)
    requires
        a.to_multiset() == b.to_multiset(),
    ensures
        sum_of(a) == sum_of(b),
    decreases a.len(),
{
    if a.len() == 0 {
        b.to_multiset_ensures();
        a.to_multiset_ensures();
        assert(b.len() == 0);
    } else {
        let x = a.last();
        let a_rest = a.drop_last();
        assert(a =~= a_rest.push(x));
        to_multiset_build(a_rest, x);
        to_multiset_contains(b, x);
        assert(b.to_multiset().count(x) > 0);
        let j = choose|j: int| 0 <= j < b.len() && b[j] == x;
        let b_rest = b.remove(j);
        to_multiset_remove(b, j);
        assert(a_rest.to_multiset() =~= b_rest.to_multiset());
        lemma_sum_permutation(a_rest, b_rest);
        let left = b.subrange(0, j);
        let right = b.subrange(j + 1, b.len() as int);
        assert(b =~= left + (seq![x] + right));
        assert(b_rest =~= left + right);
        lemma_sum_concat(left, seq![x] + right);
        lemma_sum_concat(seq![x], right);
        lemma_sum_concat(left, right);
        assert(seq![x].drop_last() =~= Seq::<Stats>::empty());
        assert(seq![x].last() == x);
        assert(sum_of(seq![x]) == plus(sum_of(Seq::<Stats>::empty()), x@));
        assert(sum_of(seq![x]) == x@);
        assert(sum_of(b_rest) == sum_of(a_rest));
    }
}

/// Partitioning a list of per-file results into any groups, not necessarily
/// of neighbouring items, reducing each group on its own and then reducing the
/// group totals gives the totals of reducing the list sequentially.
pub proof fn lemma_any_partition(s: Seq<Stats>, groups: Seq<Seq<Stats>>)
    requires
        groups.flatten().to_multiset() == s.to_multiset(),
    ensures
        sum_of_groups(groups) == sum_of(s),
{
    lemma_sum_groups(groups);
    lemma_sum_permutation(groups.flatten(), s);
}

} // verus!
