//! Alert triggers: which listings count, what is measured on them, how the
//! measurements are folded into one number, and what that number is held
//! against.

use crate::scalar::Scalar;
use crate::universalis::{Listing, MAX_LISTINGS};
use vstd::prelude::*;

verus! {

/// A condition that a listing must meet to be counted.
#[derive(Debug, Clone, Copy, PartialEq, Eq, Structural)]
pub enum TriggerFilter {
    Hq,
}

impl TriggerFilter {
    /// Whether the listing meets the condition.
    pub open spec fn holds(self, listing: Listing) -> bool {
        match self {
            TriggerFilter::Hq => listing.hq,
        }
    }

    /// Whether the listing meets the condition.
    pub fn evaluate(&self, value: &Listing) -> (r: bool)
        ensures
            r == self.holds(*value),
    {
        match self {
            TriggerFilter::Hq => value.hq,
        }
    }
}

/// The field of a listing that a trigger measures.
#[derive(Debug, Clone, Copy, PartialEq, Eq, Structural)]
pub enum TriggerMapper {
    UnitPrice,
}

impl TriggerMapper {
    /// The measurement of the listing.
    pub open spec fn project(self, listing: Listing) -> int {
        match self {
            TriggerMapper::UnitPrice => listing.unit_price as int,
        }
    }

    /// The measurement of the listing, as a whole number.
    pub fn evaluate(&self, listing: &Listing) -> (r: Scalar)
        ensures
            r.wf(),
            r.num() == self.project(*listing),
            r.den() == 1,
            r@ == self.project(*listing) as real,
    {
        match self {
            TriggerMapper::UnitPrice => Scalar::from_int(listing.unit_price as i64),
        }
    }
}

/// How the measurements of the counted listings become one number.
#[derive(Debug, Clone, Copy, PartialEq, Eq, Structural)]
pub enum TriggerReducer {
    Min,
    Max,
    Mean,
}

/// What a fold carries from one step to the next besides the accumulator:
/// the number of samples that the accumulator already stands for.
#[derive(Debug)]
pub struct ReducerContext {
    samples: u64,
}

impl ReducerContext {
    /// The number of samples that the accumulator stands for.
    pub closed spec fn samples(self) -> int {
        self.samples as int
    }

    /// The context of a fold whose accumulator is its first sample.
    pub fn new() -> (r: ReducerContext)
        ensures
            r.samples() == 1,
    {
        ReducerContext { samples: 1 }
    }

    /// The number of samples that the accumulator stands for.
    pub fn count(&self) -> (n: u64)
        ensures
            n == self.samples(),
    {
        self.samples
    }
}

impl TriggerReducer {
    /// One step of the fold, on the numbers themselves: the smaller, the
    /// greater, or the mean of `samples + 1` numbers of which the first
    /// `samples` have the mean `accum`.
    pub open spec fn combine(self, samples: int, accum: real, item: real) -> real {
        match self {
            TriggerReducer::Min => if item < accum {
                item
            } else {
                accum
            },
            TriggerReducer::Max => if item > accum {
                item
            } else {
                accum
            },
            TriggerReducer::Mean => (samples as real * accum + item) / (samples + 1) as real,
        }
    }

    /// Whether a step can hold its result. The smaller and the greater of two
    /// numbers always can; for the mean see `Scalar::running_mean_fits`.
    pub open spec fn step_fits(self, samples: int, accum: Scalar, item: Scalar) -> bool {
        self is Mean ==> accum.running_mean_fits(samples, item)
    }

    /// Whether a step can hold its result, as `step_fits` says it.
    pub fn can_step(&self, context: &ReducerContext, accum: &Scalar, item: &Scalar) -> (r: bool)
        ensures
            r == self.step_fits(context.samples(), *accum, *item),
    {
        match self {
            TriggerReducer::Mean => accum.can_take(context.samples, item),
            _ => true,
        }
    }

    /// Folds `item` into `accum` where the step can hold its result, as
    /// `evaluate` does; where it cannot, gives nothing and leaves the context
    /// as it is.
    pub fn checked_evaluate(
        &self,
        context: &mut ReducerContext,
        accum: &Scalar,
        item: &Scalar,
    ) -> (r: Option<Scalar>)
        ensures
            r is Some <==> self.step_fits(old(context).samples(), *accum, *item),
            r matches Some(folded) ==> {
                &&& folded.wf()
                &&& folded@ == self.combine(old(context).samples(), accum@, item@)
                &&& match *self {
                    TriggerReducer::Min => folded == if item@ < accum@ {
                        *item
                    } else {
                        *accum
                    },
                    TriggerReducer::Max => folded == if item@ > accum@ {
                        *item
                    } else {
                        *accum
                    },
                    TriggerReducer::Mean => {
                        &&& folded.num() == accum.running_mean_parts(
                            old(context).samples(),
                            *item,
                        ).0
                        &&& folded.den() == accum.running_mean_parts(
                            old(context).samples(),
                            *item,
                        ).1
                    },
                }
                &&& final(context).samples() == if *self is Mean {
                    old(context).samples() + 1
                } else {
                    old(context).samples()
                }
            },
            r is None ==> final(context).samples() == old(context).samples(),
    {
        if self.can_step(context, accum, item) {
            Some(self.evaluate(context, accum, item))
        } else {
            None
        }
    }

    /// Folds `item` into `accum`. Only the mean counts its samples.
    pub fn evaluate(&self, context: &mut ReducerContext, accum: &Scalar, item: &Scalar) -> (r:
        Scalar)
        requires
            self.step_fits(old(context).samples(), *accum, *item),
        ensures
            r.wf(),
            r@ == self.combine(old(context).samples(), accum@, item@),
            match *self {
                TriggerReducer::Min => r == if item@ < accum@ {
                    *item
                } else {
                    *accum
                },
                TriggerReducer::Max => r == if item@ > accum@ {
                    *item
                } else {
                    *accum
                },
                TriggerReducer::Mean => {
                    &&& r.num() == accum.running_mean_parts(old(context).samples(), *item).0
                    &&& r.den() == accum.running_mean_parts(old(context).samples(), *item).1
                },
            },
            final(context).samples() == if *self is Mean {
                old(context).samples() + 1
            } else {
                old(context).samples()
            },
    {
        proof {
            use_type_invariant(accum);
            use_type_invariant(item);
        }
        match self {
            TriggerReducer::Min => if item.less_than(accum) {
                *item
            } else {
                *accum
            },
            TriggerReducer::Max => if item.greater_than(accum) {
                *item
            } else {
                *accum
            },
            TriggerReducer::Mean => {
                let n: u64 = context.samples;
                context.samples = n + 1;
                accum.running_mean(n, item)
            },
        }
    }
}

/// What the reduced number is held against.
#[derive(Debug, Clone, Copy)]
pub enum Comparison {
    LessThan { target: Scalar },
    GreaterThan { target: Scalar },
}

impl Comparison {
    /// Whether the number meets the comparison: strictly below, or
    /// strictly above, the target.
    pub open spec fn holds(self, value: real) -> bool {
        match self {
            Comparison::LessThan { target } => value < target@,
            Comparison::GreaterThan { target } => value > target@,
        }
    }

    /// Whether the number meets the comparison.
    pub fn evaluate(&self, value: &Scalar) -> (r: bool)
        ensures
            r == self.holds(value@),
    {
        match self {
            Comparison::LessThan { target } => value.less_than(target),
            Comparison::GreaterThan { target } => value.greater_than(target),
        }
    }
}

/// A rule: the listings that pass every filter are measured by the mapper,
/// the measurements are folded by the reducer, and the result is held against
/// the comparison.
#[derive(Debug, Clone)]
pub struct AlertTrigger {
    pub filters: Vec<TriggerFilter>,
    pub mapper: TriggerMapper,
    pub reducer: TriggerReducer,
    pub comparison: Comparison,
}

/// Whether a listing meets every one of the filters.
pub open spec fn passes(filters: Seq<TriggerFilter>, listing: Listing) -> bool {
    forall|i: int| 0 <= i < filters.len() ==> (#[trigger] filters[i]).holds(listing)
}

/// The listings that meet every filter, in their order.
pub open spec fn surviving(filters: Seq<TriggerFilter>, listings: Seq<Listing>) -> Seq<Listing> {
    listings.filter(|listing: Listing| passes(filters, listing))
}

/// The measurements of the listings, in their order.
pub open spec fn mapped(mapper: TriggerMapper, listings: Seq<Listing>) -> Seq<int> {
    listings.map_values(|listing: Listing| mapper.project(listing))
}

/// The sum of the values.
pub open spec fn total(values: Seq<int>) -> int
    decreases values.len(),
{
    if values.len() == 0 {
        0
    } else {
        total(values.drop_last()) + values.last()
    }
}

/// The number that the reducer makes of the values: the least, the greatest,
/// or the sum divided by the count.
pub open spec fn reduced(reducer: TriggerReducer, values: Seq<int>) -> real
    recommends
        values.len() > 0,
{
    match reducer {
        TriggerReducer::Min => values.min() as real,
        TriggerReducer::Max => values.max() as real,
        TriggerReducer::Mean => total(values) as real / values.len() as real,
    }
}

/// What a fold of `seen` has reached: the accumulator is the least or the
/// greatest of the values, or their sum over their count, and for the mean
/// the context has counted them.
spec fn folded(
    reducer: TriggerReducer,
    seen: Seq<int>,
    accum: Scalar,
    context: ReducerContext,
) -> bool {
    match reducer {
        TriggerReducer::Min => {
            &&& accum.den() == 1
            &&& seen.contains(accum.num())
            &&& forall|j: int| 0 <= j < seen.len() ==> accum.num() <= #[trigger] seen[j]
        },
        TriggerReducer::Max => {
            &&& accum.den() == 1
            &&& seen.contains(accum.num())
            &&& forall|j: int| 0 <= j < seen.len() ==> accum.num() >= #[trigger] seen[j]
        },
        TriggerReducer::Mean => {
            &&& accum.num() == total(seen)
            &&& accum.den() == seen.len()
            &&& context.samples() == seen.len()
        },
    }
}

/// The sum of 32-bit values is at most their count times the greatest of
/// such values, and at least their count times the least.
proof fn lemma_total_bounded(values: Seq<int>)
    requires
        forall|i: int| 0 <= i < values.len() ==> i32::MIN <= #[trigger] values[i] <= i32::MAX,
    ensures
        values.len() * (-0x8000_0000) <= total(values) <= values.len() * 0x7fff_ffff,
    decreases values.len(),
{
    if values.len() > 0 {
        lemma_total_bounded(values.drop_last());
    }
}

/// A fold that has seen the first `i` of the values, each of 32 bits, can
/// take the next step; for the mean, where the values are no more than
/// `MAX_LISTINGS`.
proof fn lemma_step_fits(
    reducer: TriggerReducer,
    values: Seq<int>,
    i: int,
    accum: Scalar,
    item: Scalar,
    context: ReducerContext,
)
    requires
        1 <= i < values.len(),
        reducer is Mean ==> values.len() <= MAX_LISTINGS,
        forall|j: int| 0 <= j < values.len() ==> i32::MIN <= #[trigger] values[j] <= i32::MAX,
        folded(reducer, values.take(i), accum, context),
        item.num() == values[i],
        item.den() == 1,
    ensures
        reducer.step_fits(context.samples(), accum, item),
        reducer is Mean ==> accum.running_mean_parts(i, item) == (total(values.take(i + 1)), i + 1),
{
    if reducer is Mean {
        let seen = values.take(i);
        assert(values.take(i + 1).drop_last() =~= seen);
        assert forall|j: int| 0 <= j < seen.len() implies i32::MIN <= #[trigger] seen[j]
            <= i32::MAX by {
            assert(seen[j] == values[j]);
        }
        lemma_total_bounded(seen);
        crate::fraction::lemma_gcd_of_multiple(i as nat, i as nat);
        assert(i / i == 1);
        assert(accum.running_mean_parts(i, item) == (total(seen) + values[i], i + 1))
            by (nonlinear_arith)
            requires
                accum.running_mean_parts(i, item) == (
                    (i / i) * accum.num() * item.den() + item.num() * (accum.den() / i),
                    (accum.den() / i) * item.den() * (i + 1),
                ),
                i / i == 1,
                accum.den() == i,
                item.den() == 1,
                accum.num() == total(seen),
                item.num() == values[i],
        ;
    }
}

/// A fold that has seen the first `i` values has seen one more after the
/// next step.
proof fn lemma_step_folds(
    reducer: TriggerReducer,
    values: Seq<int>,
    i: int,
    accum: Scalar,
    item: Scalar,
    context: ReducerContext,
    stepped: Scalar,
    counted: ReducerContext,
)
    requires
        1 <= i < values.len(),
        folded(reducer, values.take(i), accum, context),
        item.num() == values[i],
        item.den() == 1,
        match reducer {
            TriggerReducer::Min => stepped == if item@ < accum@ {
                item
            } else {
                accum
            },
            TriggerReducer::Max => stepped == if item@ > accum@ {
                item
            } else {
                accum
            },
            TriggerReducer::Mean => {
                &&& (stepped.num(), stepped.den()) == accum.running_mean_parts(i, item)
                &&& accum.running_mean_parts(i, item) == (total(values.take(i + 1)), i + 1)
                &&& counted.samples() == context.samples() + 1
            },
        },
    ensures
        folded(reducer, values.take(i + 1), stepped, counted),
{
    let seen = values.take(i);
    let next = values.take(i + 1);
    if !(reducer is Mean) {
        crate::fraction::lemma_whole(accum.num());
        crate::fraction::lemma_whole(item.num());
        assert forall|j: int| 0 <= j < next.len() implies next[j] == if j < i {
            seen[j]
        } else {
            item.num()
        } by {}
        let k = choose|k: int| 0 <= k < seen.len() && seen[k] == accum.num();
        assert(next[k] == accum.num());
        assert(next[i] == item.num());
    }
}

/// A fold that has seen every value holds the reduced number.
proof fn lemma_folded_is_reduced(
    reducer: TriggerReducer,
    values: Seq<int>,
    accum: Scalar,
    context: ReducerContext,
)
    requires
        values.len() > 0,
        folded(reducer, values, accum, context),
    ensures
        accum@ == reduced(reducer, values),
        (accum.num(), accum.den()) == reduced_parts(reducer, values),
{
    match reducer {
        TriggerReducer::Min => {
            values.min_ensures();
            crate::fraction::lemma_whole(accum.num());
        },
        TriggerReducer::Max => {
            values.max_ensures();
            crate::fraction::lemma_whole(accum.num());
        },
        TriggerReducer::Mean => {},
    }
}

/// The number that a fold from the left reaches: the first value, then one
/// step of the reducer for each value after it, the step's count being the
/// number of values before.
pub open spec fn fold_from_left(reducer: TriggerReducer, values: Seq<int>) -> real
    recommends
        values.len() > 0,
    decreases values.len(),
{
    if values.len() <= 1 {
        values[0] as real
    } else {
        reducer.combine(
            values.len() - 1,
            fold_from_left(reducer, values.drop_last()),
            values.last() as real,
        )
    }
}

/// Without filters every listing is kept: filtering changes nothing.
pub proof fn lemma_no_filter_keeps_all(listings: Seq<Listing>)
    ensures
        surviving(Seq::<TriggerFilter>::empty(), listings) == listings,
    decreases listings.len(),
{
    let keep = |listing: Listing| passes(Seq::<TriggerFilter>::empty(), listing);
    if listings.len() == 0 {
        reveal(Seq::filter);
    } else {
        lemma_no_filter_keeps_all(listings.drop_last());
        listings.drop_last().lemma_filter_push(listings.last(), keep);
        assert(listings.drop_last().push(listings.last()) =~= listings);
    }
}

/// Where no listing passes the filters the trigger makes nothing of the
/// listings, whatever its reducer and its comparison are.
pub proof fn lemma_nothing_kept_no_outcome(trigger: AlertTrigger, listings: Seq<Listing>)
    requires
        surviving(trigger.filters@, listings).len() == 0,
    ensures
        trigger.outcome(listings) is None,
{
}

/// Folding step by step from the left reaches the reduced number: the running
/// minimum is the least value, the running maximum the greatest, and the
/// running mean the sum over the count.
pub proof fn lemma_fold_is_reduced(reducer: TriggerReducer, values: Seq<int>)
    requires
        values.len() > 0,
    ensures
        fold_from_left(reducer, values) == reduced(reducer, values),
    decreases values.len(),
{
    if values.len() == 1 {
        assert(values.drop_last() =~= Seq::<int>::empty());
        assert(total(values) == values[0]) by {
            reveal_with_fuel(total, 2);
        }
        crate::fraction::lemma_whole(values[0]);
    } else {
        let before = values.drop_last();
        let last = values.last();
        lemma_fold_is_reduced(reducer, before);
        before.min_ensures();
        before.max_ensures();
        values.min_ensures();
        values.max_ensures();
        assert forall|j: int| 0 <= j < before.len() implies before[j] == values[j] by {}
        match reducer {
            TriggerReducer::Min => {
                let least = before.min();
                let k = choose|k: int| 0 <= k < before.len() && before[k] == least;
                assert(values[k] == least);
                assert(values.contains(least));
                assert(values.contains(last)) by {
                    assert(values[values.len() - 1] == last);
                }
                let m = choose|m: int| 0 <= m < values.len() && values[m] == values.min();
                assert(m < before.len() ==> before[m] == values.min());
            },
            TriggerReducer::Max => {
                let greatest = before.max();
                let k = choose|k: int| 0 <= k < before.len() && before[k] == greatest;
                assert(values[k] == greatest);
                assert(values.contains(greatest));
                assert(values.contains(last)) by {
                    assert(values[values.len() - 1] == last);
                }
                let m = choose|m: int| 0 <= m < values.len() && values[m] == values.max();
                assert(m < before.len() ==> before[m] == values.max());
            },
            TriggerReducer::Mean => {
                crate::fraction::lemma_quotient(total(before) as real, before.len() as real);
            },
        }
    }
}

/// The sum of the values is their fold by addition.
proof fn lemma_total_is_fold(values: Seq<int>)
    ensures
        total(values) == values.fold_left(0int, |sum: int, value: int| sum + value),
    decreases values.len(),
{
    if values.len() > 0 {
        lemma_total_is_fold(values.drop_last());
    }
}

/// The reduced number does not depend on the order of the values: two
/// sequences that hold the same values equally often reduce to the same.
pub proof fn lemma_reduced_ignores_order(reducer: TriggerReducer, a: Seq<int>, b: Seq<int>)
    requires
        a.to_multiset() == b.to_multiset(),
    ensures
        reduced(reducer, a) == reduced(reducer, b),
{
    vstd::seq_lib::to_multiset_len(a);
    vstd::seq_lib::to_multiset_len(b);
    lemma_parts_ignore_order(reducer, a, b);
}

/// A fold from the left reaches the same number in whatever order the values
/// come.
pub proof fn lemma_fold_ignores_order(reducer: TriggerReducer, a: Seq<int>, b: Seq<int>)
    requires
        a.to_multiset() == b.to_multiset(),
    ensures
        fold_from_left(reducer, a) == fold_from_left(reducer, b),
{
    vstd::seq_lib::to_multiset_len(a);
    vstd::seq_lib::to_multiset_len(b);
    if a.len() == 0 {
        assert(a =~= b);
    } else {
        lemma_fold_is_reduced(reducer, a);
        lemma_fold_is_reduced(reducer, b);
        lemma_reduced_ignores_order(reducer, a, b);
    }
}

/// The measurements of the listings that meet every filter, in their order.
pub open spec fn kept_values(
    filters: Seq<TriggerFilter>,
    mapper: TriggerMapper,
    listings: Seq<Listing>,
) -> Seq<int> {
    mapped(mapper, surviving(filters, listings))
}

/// The measurements of listings put one after the other are the
/// measurements of the first and then those of the second.
proof fn lemma_values_of_both(
    filters: Seq<TriggerFilter>,
    mapper: TriggerMapper,
    a: Seq<Listing>,
    b: Seq<Listing>,
)
    ensures
        kept_values(filters, mapper, a + b) == kept_values(filters, mapper, a) + kept_values(
            filters,
            mapper,
            b,
        ),
{
    let keep = |listing: Listing| passes(filters, listing);
    Seq::filter_distributes_over_add(a, b, keep);
    assert(kept_values(filters, mapper, a + b) =~= kept_values(filters, mapper, a) + kept_values(
        filters,
        mapper,
        b,
    ));
}

/// Listings in another order are measured to the same values, in another
/// order.
pub proof fn lemma_values_follow_the_order(
    filters: Seq<TriggerFilter>,
    mapper: TriggerMapper,
    a: Seq<Listing>,
    b: Seq<Listing>,
)
    requires
        a.to_multiset() == b.to_multiset(),
    ensures
        kept_values(filters, mapper, a).to_multiset() == kept_values(
            filters,
            mapper,
            b,
        ).to_multiset(),
    decreases a.len(),
{
    vstd::seq_lib::to_multiset_len(a);
    vstd::seq_lib::to_multiset_len(b);
    if a.len() == 0 {
        assert(a =~= b);
    } else {
        let x = a.last();
        let before = a.drop_last();
        vstd::seq_lib::to_multiset_contains(a, x);
        vstd::seq_lib::to_multiset_contains(b, x);
        assert(a[a.len() - 1] == x);
        assert(a.contains(x));
        let i = b.index_of(x);
        let left = b.subrange(0, i);
        let right = b.subrange(i + 1, b.len() as int);
        let one = seq![x];
        assert(before =~= a.remove(a.len() - 1));
        vstd::seq_lib::to_multiset_remove(a, a.len() - 1);
        vstd::seq_lib::to_multiset_remove(b, i);
        assert(b.remove(i) == left + right);
        lemma_values_follow_the_order(filters, mapper, before, left + right);
        assert(a =~= before + one);
        assert(b =~= (left + one) + right);
        lemma_values_of_both(filters, mapper, before, one);
        lemma_values_of_both(filters, mapper, left, right);
        lemma_values_of_both(filters, mapper, left, one);
        lemma_values_of_both(filters, mapper, left + one, right);
        let v_before = kept_values(filters, mapper, before);
        let v_left = kept_values(filters, mapper, left);
        let v_right = kept_values(filters, mapper, right);
        let v_one = kept_values(filters, mapper, one);
        vstd::seq_lib::lemma_multiset_commutative(v_before, v_one);
        vstd::seq_lib::lemma_multiset_commutative(v_left, v_right);
        vstd::seq_lib::lemma_multiset_commutative(v_left, v_one);
        vstd::seq_lib::lemma_multiset_commutative(v_left + v_one, v_right);
        assert(kept_values(filters, mapper, a).to_multiset() =~= kept_values(
            filters,
            mapper,
            b,
        ).to_multiset());
    }
}

/// What a trigger makes of listings does not depend on their order.
pub proof fn lemma_outcome_ignores_order(trigger: AlertTrigger, a: Seq<Listing>, b: Seq<Listing>)
    requires
        a.to_multiset() == b.to_multiset(),
    ensures
        trigger.outcome(a) == trigger.outcome(b),
        surviving(trigger.filters@, a).len() == surviving(trigger.filters@, b).len(),
        reduced_parts(trigger.reducer, kept_values(trigger.filters@, trigger.mapper, a))
            == reduced_parts(trigger.reducer, kept_values(trigger.filters@, trigger.mapper, b)),
{
    let values_a = kept_values(trigger.filters@, trigger.mapper, a);
    let values_b = kept_values(trigger.filters@, trigger.mapper, b);
    lemma_values_follow_the_order(trigger.filters@, trigger.mapper, a, b);
    vstd::seq_lib::to_multiset_len(values_a);
    vstd::seq_lib::to_multiset_len(values_b);
    lemma_reduced_ignores_order(trigger.reducer, values_a, values_b);
    lemma_parts_ignore_order(trigger.reducer, values_a, values_b);
}

/// Numerator and denominator of the reduced number do not depend on the
/// order of the values either.
pub proof fn lemma_parts_ignore_order(reducer: TriggerReducer, a: Seq<int>, b: Seq<int>)
    requires
        a.to_multiset() == b.to_multiset(),
    ensures
        reduced_parts(reducer, a) == reduced_parts(reducer, b),
{
    vstd::seq_lib::to_multiset_len(a);
    vstd::seq_lib::to_multiset_len(b);
    if a.len() == 0 {
        assert(a =~= b);
    } else {
        a.min_ensures();
        b.min_ensures();
        a.max_ensures();
        b.max_ensures();
        vstd::seq_lib::to_multiset_contains(a, a.min());
        vstd::seq_lib::to_multiset_contains(b, a.min());
        vstd::seq_lib::to_multiset_contains(a, b.min());
        vstd::seq_lib::to_multiset_contains(b, b.min());
        vstd::seq_lib::to_multiset_contains(a, a.max());
        vstd::seq_lib::to_multiset_contains(b, a.max());
        vstd::seq_lib::to_multiset_contains(a, b.max());
        vstd::seq_lib::to_multiset_contains(b, b.max());
        lemma_total_is_fold(a);
        lemma_total_is_fold(b);
        vstd::seq_lib::lemma_fold_left_permutation(a, b, |sum: int, value: int| sum + value, 0int);
    }
}

/// Taking the smaller, or the greater, of three numbers gives the same
/// whichever two are taken first, and whichever comes first of two.
pub proof fn lemma_extrema_associate(reducer: TriggerReducer, n: int, x: real, y: real, z: real)
    requires
        !(reducer is Mean),
    ensures
        reducer.combine(n, reducer.combine(n, x, y), z) == reducer.combine(
            n,
            x,
            reducer.combine(n, y, z),
        ),
        reducer.combine(n, x, y) == reducer.combine(n, y, x),
{
}

/// Numerator and denominator of the reduced number as `reduce` holds it: the
/// least or the greatest value over one, or the sum over the count.
pub open spec fn reduced_parts(reducer: TriggerReducer, values: Seq<int>) -> (int, int)
    recommends
        values.len() > 0,
{
    match reducer {
        TriggerReducer::Min => (values.min(), 1),
        TriggerReducer::Max => (values.max(), 1),
        TriggerReducer::Mean => (total(values), values.len() as int),
    }
}

impl AlertTrigger {
    /// What the trigger makes of the listings: nothing where no listing
    /// passes the filters or the comparison fails, else the reduced number.
    pub open spec fn outcome(self, listings: Seq<Listing>) -> Option<real> {
        let values = mapped(self.mapper, surviving(self.filters@, listings));
        if values.len() == 0 {
            None
        } else if self.comparison.holds(reduced(self.reducer, values)) {
            Some(reduced(self.reducer, values))
        } else {
            None
        }
    }

    /// Whether the listing meets every filter of the trigger.
    pub fn accepts(&self, listing: &Listing) -> (r: bool)
        ensures
            r == passes(self.filters@, *listing),
    {
        let mut i: usize = 0;
        while i < self.filters.len()
            invariant
                i <= self.filters.len(),
                forall|j: int| 0 <= j < i ==> (#[trigger] self.filters@[j]).holds(*listing),
            decreases self.filters.len() - i,
        {
            if !self.filters[i].evaluate(listing) {
                return false;
            }
            i += 1;
        }
        true
    }

    /// The listings that meet every filter of the trigger, in their order.
    pub fn filter(&self, listings: &[Listing]) -> (kept: Vec<Listing>)
        ensures
            kept@ == surviving(self.filters@, listings@),
            self.filters@.len() == 0 ==> kept@ == listings@,
    {
        let ghost keep = |listing: Listing| passes(self.filters@, listing);
        let mut kept: Vec<Listing> = Vec::new();
        let mut i: usize = 0;
        proof {
            reveal(Seq::filter);
            assert(listings@.take(0) =~= Seq::<Listing>::empty());
        }
        while i < listings.len()
            invariant
                i <= listings.len(),
                keep == |listing: Listing| passes(self.filters@, listing),
                kept@ == listings@.take(i as int).filter(keep),
            decreases listings.len() - i,
        {
            proof {
                listings@.take(i as int).lemma_filter_push(listings@[i as int], keep);
                assert(listings@.take(i as int).push(listings@[i as int]) =~= listings@.take(
                    i + 1,
                ));
            }
            if self.accepts(&listings[i]) {
                kept.push(listings[i]);
            }
            i += 1;
        }
        proof {
            assert(listings@.take(i as int) =~= listings@);
            if self.filters@.len() == 0 {
                assert(self.filters@ =~= Seq::<TriggerFilter>::empty());
                lemma_no_filter_keeps_all(listings@);
            }
        }
        kept
    }

    /// The measurements of the listings, folded from the first one on.
    /// None where there is no listing. The least and the greatest are found
    /// among any number of listings; the mean is taken of no more than
    /// `MAX_LISTINGS`, whose sum and count its parts can hold.
    pub fn reduce(&self, kept: &[Listing]) -> (r: Option<Scalar>)
        requires
            self.reducer is Mean ==> kept.len() <= MAX_LISTINGS,
        ensures
            r is None <==> kept.len() == 0,
            r matches Some(v) ==> {
                &&& v.wf()
                &&& v@ == reduced(self.reducer, mapped(self.mapper, kept@))
                &&& v@ == fold_from_left(self.reducer, mapped(self.mapper, kept@))
                &&& (v.num(), v.den()) == reduced_parts(self.reducer, mapped(self.mapper, kept@))
            },
    {
        if kept.len() == 0 {
            return None;
        }
        let ghost values = mapped(self.mapper, kept@);
        let mut context = ReducerContext::new();
        let mut accum = self.mapper.evaluate(&kept[0]);
        let mut i: usize = 1;
        proof {
            assert(values.take(1) =~= seq![values[0]]);
            assert(values.take(1).drop_last() =~= Seq::<int>::empty());
            assert(total(values.take(1)) == values[0]) by {
                reveal_with_fuel(total, 2);
            }
            assert(values.take(1)[0] == accum.num());
            assert forall|j: int| 0 <= j < values.len() implies i32::MIN <= #[trigger] values[j]
                <= i32::MAX by {
                assert(values[j] == self.mapper.project(kept@[j]));
            }
        }
        while i < kept.len()
            invariant
                1 <= i <= kept.len(),
                self.reducer is Mean ==> kept.len() <= MAX_LISTINGS,
                values == mapped(self.mapper, kept@),
                forall|j: int| 0 <= j < values.len() ==> i32::MIN <= #[trigger] values[j] <= i32::MAX,
                accum.wf(),
                folded(self.reducer, values.take(i as int), accum, context),
            decreases kept.len() - i,
        {
            let item = self.mapper.evaluate(&kept[i]);
            let ghost before = (accum, context);
            proof {
                assert(item.num() == values[i as int]);
                lemma_step_fits(self.reducer, values, i as int, accum, item, context);
            }
            accum = self.reducer.evaluate(&mut context, &accum, &item);
            proof {
                lemma_step_folds(
                    self.reducer,
                    values,
                    i as int,
                    before.0,
                    item,
                    before.1,
                    accum,
                    context,
                );
            }
            i += 1;
        }
        proof {
            assert(values.take(i as int) =~= values);
            lemma_folded_is_reduced(self.reducer, values, accum, context);
            lemma_fold_is_reduced(self.reducer, values);
        }
        Some(accum)
    }

    /// The number that the trigger reduces the listings to, where at least
    /// one listing passes the filters and the number meets the comparison.
    /// For the mean, no more than `MAX_LISTINGS` listings may pass the
    /// filters; that is so wherever there are no more listings than that.
    pub fn evaluate(&self, listings: &[Listing]) -> (r: Option<Scalar>)
        requires
            self.reducer is Mean ==> surviving(self.filters@, listings@).len() <= MAX_LISTINGS,
        ensures
            match r {
                Some(v) => {
                    &&& v.wf()
                    &&& self.outcome(listings@) == Some(v@)
                    &&& (v.num(), v.den()) == reduced_parts(
                        self.reducer,
                        mapped(self.mapper, surviving(self.filters@, listings@)),
                    )
                },
                None => self.outcome(listings@) is None,
            },
            surviving(self.filters@, listings@).len() == 0 ==> r is None,
            self.filters@.len() == 0 ==> surviving(self.filters@, listings@) == listings@,
    {
        let kept = self.filter(listings);
        proof {
            listings@.lemma_filter_len(|listing: Listing| passes(self.filters@, listing));
        }
        match self.reduce(kept.as_slice()) {
            Some(value) => if self.comparison.evaluate(&value) {
                Some(value)
            } else {
                None
            },
            None => None,
        }
    }
}

} // verus!
