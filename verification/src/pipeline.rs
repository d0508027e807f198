//! Why the check of a pipeline's legs does not depend on the order in which the legs arrive:
//! the refusals before the union only count legs and bars, and the union is put in event-time
//! order, which an accepted union pins down.

use vstd::prelude::*;
use vstd::seq_lib::{
    group_to_multiset_ensures, lemma_multiset_commutative, to_multiset_contains, to_multiset_len,
};

use crate::engine::{leg_bars, legs_refusal, sorted_by_event, DataEngine};
use crate::model::Bar;
use crate::response::DataResponseView;
use crate::source::{close_of, HistoricalBarSource};

verus! {

/// The bars one leg contributes to its pipeline's union.
pub open spec fn leg_data(leg: DataResponseView) -> Seq<Bar> {
    match leg {
        DataResponseView::Bars(b) => b.data,
        _ => Seq::empty(),
    }
}

/// Bars whose event times strictly rise.
pub open spec fn strictly_by_event(bars: Seq<Bar>) -> bool {
    forall|i: int, j: int| 0 <= i < j < bars.len() ==> bars[i].ts_event < bars[j].ts_event
}

/// Whether a pipeline's legs are accepted, given the event-ordered union of their bars.
pub open spec fn legs_accepted(
    source: HistoricalBarSource,
    legs: Seq<DataResponseView>,
    union: Seq<Bar>,
    now: u64,
) -> bool {
    &&& legs_refusal(legs, source.expected_count, legs.len()) is None
    &&& source.validation(
        DataEngine::pipeline_union(source, union, now),
        source.parent_request_id is None,
    ) is Ok
}

/// Whether a pipeline's legs are accepted does not depend on the order in which they arrive:
/// two orders of the same legs, each with its union in event-time order, are both accepted or
/// both refused.
pub proof fn law_leg_order_does_not_decide(
    source: HistoricalBarSource,
    legs: Seq<DataResponseView>,
    reordered: Seq<DataResponseView>,
    union: Seq<Bar>,
    reunion: Seq<Bar>,
    now: u64,
)
    requires
        reordered.to_multiset() == legs.to_multiset(),
        sorted_by_event(union),
        union.to_multiset() == leg_bars(legs, legs.len()).to_multiset(),
        sorted_by_event(reunion),
        reunion.to_multiset() == leg_bars(reordered, reordered.len()).to_multiset(),
    ensures
        legs_accepted(source, legs, union, now) <==> legs_accepted(source, reordered, reunion, now),
{
    broadcast use group_to_multiset_ensures;

    lemma_permuted_bars(legs, reordered);
    lemma_refusal_counts(legs, source.expected_count, legs.len());
    lemma_refusal_counts(reordered, source.expected_count, reordered.len());
    if forall|k: int| 0 <= k < legs.len() ==> #[trigger] legs[k] is Bars {
        lemma_permuted_kinds(legs, reordered);
    }
    if forall|k: int| 0 <= k < reordered.len() ==> #[trigger] reordered[k] is Bars {
        lemma_permuted_kinds(reordered, legs);
    }
    to_multiset_len(leg_bars(legs, legs.len()));
    to_multiset_len(leg_bars(reordered, reordered.len()));
    assert(union.to_multiset() == reunion.to_multiset());
    if legs_accepted(source, legs, union, now) {
        lemma_accepted_union_is_strict(source, union, now);
        lemma_strict_order_is_unique(union, reunion);
    }
    if legs_accepted(source, reordered, reunion, now) {
        lemma_accepted_union_is_strict(source, reunion, now);
        lemma_strict_order_is_unique(reunion, union);
    }
}

/// The first `n` legs' bars depend on those legs only.
proof fn lemma_leg_bars_prefix(a: Seq<DataResponseView>, b: Seq<DataResponseView>, n: nat)
    requires
        n <= a.len(),
        n <= b.len(),
        forall|k: int| 0 <= k < n ==> a[k] == b[k],
    ensures
        leg_bars(a, n) == leg_bars(b, n),
    decreases n,
{
    if n > 0 {
        lemma_leg_bars_prefix(a, b, (n - 1) as nat);
    }
}

/// All legs' bars are those of all but the last leg, then the last leg's.
proof fn lemma_leg_bars_last(s: Seq<DataResponseView>)
    requires
        s.len() > 0,
    ensures
        leg_bars(s, s.len()) == leg_bars(s.drop_last(), s.drop_last().len()) + leg_data(s.last()),
{
    lemma_leg_bars_prefix(s, s.drop_last(), (s.len() - 1) as nat);
}

/// Taking one leg out takes exactly its bars out of the union.
proof fn lemma_leg_bars_remove(s: Seq<DataResponseView>, j: int)
    requires
        0 <= j < s.len(),
    ensures
        leg_bars(s, s.len()).to_multiset() =~= leg_bars(s.remove(j), s.remove(j).len()).to_multiset().add(
            leg_data(s[j]).to_multiset(),
        ),
    decreases s.len(),
{
    broadcast use vstd::multiset::group_multiset_axioms;

    let t = s.remove(j);
    lemma_leg_bars_last(s);
    lemma_multiset_commutative(leg_bars(s.drop_last(), s.drop_last().len()), leg_data(s.last()));
    if j == s.len() - 1 {
        assert(t =~= s.drop_last());
    } else {
        assert(t.last() == s.last());
        assert(t.drop_last() =~= s.drop_last().remove(j));
        lemma_leg_bars_remove(s.drop_last(), j);
        lemma_leg_bars_last(t);
        lemma_multiset_commutative(leg_bars(t.drop_last(), t.drop_last().len()), leg_data(t.last()));
    }
}

/// Legs in another order carry the same bars.
proof fn lemma_permuted_bars(a: Seq<DataResponseView>, b: Seq<DataResponseView>)
    requires
        a.to_multiset() == b.to_multiset(),
    ensures
        leg_bars(a, a.len()).to_multiset() == leg_bars(b, b.len()).to_multiset(),
    decreases a.len(),
{
    broadcast use group_to_multiset_ensures;
    broadcast use vstd::multiset::group_multiset_axioms;

    to_multiset_len(a);
    to_multiset_len(b);
    if a.len() == 0 {
        assert(b.len() == 0);
        assert(leg_bars(a, a.len()) =~= leg_bars(b, b.len()));
    } else {
        let x = a.last();
        assert(a.to_multiset().count(x) > 0) by {
            assert(a.contains(x));
        }
        assert(b.contains(x));
        let j = choose|j: int| 0 <= j < b.len() && b[j] == x;
        assert(a.drop_last() =~= a.remove(a.len() - 1));
        assert(a.drop_last().to_multiset() == b.remove(j).to_multiset());
        lemma_permuted_bars(a.drop_last(), b.remove(j));
        lemma_leg_bars_last(a);
        lemma_multiset_commutative(leg_bars(a.drop_last(), a.drop_last().len()), leg_data(x));
        lemma_leg_bars_remove(b, j);
    }
}

/// The legs before the union are refused exactly when one is not a bars response or they
/// carry more bars than the source covers.
proof fn lemma_refusal_counts(s: Seq<DataResponseView>, expected: usize, n: nat)
    requires
        n <= s.len(),
    ensures
        legs_refusal(s, expected, n) is None <==> (forall|k: int|
            0 <= k < n ==> #[trigger] s[k] is Bars) && leg_bars(s, n).len() <= expected,
    decreases n,
{
    if n > 0 {
        lemma_refusal_counts(s, expected, (n - 1) as nat);
        if legs_refusal(s, expected, n) is None {
            assert forall|k: int| 0 <= k < n implies #[trigger] s[k] is Bars by {
                if k < n - 1 {
                } else {
                    assert(s[n - 1] is Bars);
                }
            }
        }
    }
}

/// Every leg of `b` is a bars response when every leg of `a` is and both hold the same legs.
proof fn lemma_permuted_kinds(a: Seq<DataResponseView>, b: Seq<DataResponseView>)
    requires
        a.to_multiset() == b.to_multiset(),
        forall|k: int| 0 <= k < a.len() ==> #[trigger] a[k] is Bars,
    ensures
        forall|k: int| 0 <= k < b.len() ==> #[trigger] b[k] is Bars,
{
    broadcast use group_to_multiset_ensures;

    assert forall|k: int| 0 <= k < b.len() implies #[trigger] b[k] is Bars by {
        assert(b.contains(b[k]));
        to_multiset_contains(b, b[k]);
        to_multiset_contains(a, b[k]);
        assert(a.contains(b[k]));
        let i = choose|i: int| 0 <= i < a.len() && a[i] == b[k];
        assert(a[i] is Bars);
    }
}

/// Rows that all pass have no refused row among any prefix.
proof fn lemma_rows_pass(source: HistoricalBarSource, data: Seq<Bar>, complete: bool, n: nat, i: int)
    requires
        source.first_row_error(data, complete, n) is None,
        0 <= i < n,
    ensures
        source.row_error(data, complete, i) is None,
    decreases n,
{
    if i < n - 1 {
        lemma_rows_pass(source, data, complete, (n - 1) as nat, i);
    }
}

/// An accepted union in event-time order has no two bars stamped alike.
proof fn lemma_accepted_union_is_strict(source: HistoricalBarSource, union: Seq<Bar>, now: u64)
    requires
        sorted_by_event(union),
        source.validation(
            DataEngine::pipeline_union(source, union, now),
            source.parent_request_id is None,
        ) is Ok,
    ensures
        strictly_by_event(union),
{
    let complete = source.parent_request_id is None;
    assert(source.first_row_error(union, complete, union.len()) is None);
    assert forall|i: int| 0 < i < union.len() implies union[i - 1].ts_event < #[trigger] union[i].ts_event by {
        lemma_rows_pass(source, union, complete, union.len(), i);
        assert(union[i - 1].ts_event <= union[i].ts_event);
        if union[i - 1].ts_event == union[i].ts_event {
            assert(close_of(union[i - 1].ts_event) == close_of(union[i].ts_event));
        }
    }
    assert forall|i: int, j: int| 0 <= i < j < union.len() implies union[i].ts_event < union[j].ts_event by {
        assert(union[i].ts_event <= union[j - 1].ts_event);
        assert(union[j - 1].ts_event < union[j].ts_event);
    }
}

/// Two event-ordered sequences of the same bars are one sequence when the first has no two
/// bars stamped alike.
proof fn lemma_strict_order_is_unique(x: Seq<Bar>, y: Seq<Bar>)
    requires
        strictly_by_event(x),
        sorted_by_event(y),
        x.to_multiset() == y.to_multiset(),
    ensures
        x == y,
    decreases x.len(),
{
    broadcast use group_to_multiset_ensures;
    broadcast use vstd::multiset::group_multiset_axioms;

    to_multiset_len(x);
    to_multiset_len(y);
    if x.len() == 0 {
        assert(y.len() == 0);
        assert(x =~= y);
    } else {
        assert(x.contains(x[0]));
        to_multiset_contains(x, x[0]);
        to_multiset_contains(y, x[0]);
        assert(y.contains(x[0]));
        assert(y.len() > 0);
        assert(y.contains(y[0]));
        to_multiset_contains(y, y[0]);
        to_multiset_contains(x, y[0]);
        assert(x.contains(y[0]));
        let i = choose|i: int| 0 <= i < x.len() && x[i] == y[0];
        let j = choose|j: int| 0 <= j < y.len() && y[j] == x[0];
        assert(x[0].ts_event <= x[i].ts_event);
        assert(y[0].ts_event <= y[j].ts_event);
        assert(i == 0);
        assert(x.drop_first() =~= x.remove(0));
        assert(y.drop_first() =~= y.remove(0));
        lemma_strict_order_is_unique(x.drop_first(), y.drop_first());
        assert forall|k: int| 0 <= k < x.len() implies x[k] == y[k] by {
            if k > 0 {
                assert(x[k] == x.drop_first()[k - 1]);
                assert(y[k] == y.drop_first()[k - 1]);
            }
        }
        assert(x =~= y);
    }
}

} // verus!
