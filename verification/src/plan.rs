//! The frozen aggregation plan of a historical request: every target must be built, along an
//! acyclic composite path through the plan, from the original one-minute source.

use vstd::prelude::*;

use crate::error::AdmissionError;
use crate::model::{BarAggregation, BarType};
use crate::outputs::plan_standards;

verus! {

/// A time aggregation finer than the original one-minute source.
pub open spec fn finer_than_source(target: BarType) -> bool {
    let spec = target.spec_spec();
    (spec.aggregation == BarAggregation::Millisecond && spec.step < 60_000) || (spec.aggregation
        == BarAggregation::Second && spec.step < 60)
}

/// The first plan entry whose standard part is `input`.
pub open spec fn plan_find(types: Seq<BarType>, input: BarType) -> Option<BarType>
    decreases types.len(),
{
    if types.len() == 0 {
        None
    } else if types[0].spec_standard() == input {
        Some(types[0])
    } else {
        plan_find(types.drop_first(), input)
    }
}

/// Following the composite inputs from `current` through the plan, having already met the
/// standard types in `visited`, with `fuel` steps left: the source is reached, or why not.
pub open spec fn plan_walk(
    types: Seq<BarType>,
    source: BarType,
    current: BarType,
    visited: Seq<BarType>,
    fuel: nat,
) -> Result<(), AdmissionError>
    decreases fuel,
{
    if !current.spec_is_composite() || visited.contains(current.spec_standard()) {
        Err(AdmissionError::NoAcyclicPath)
    } else {
        let input = current.spec_composite().spec_standard();
        if input == source {
            Ok(())
        } else {
            match plan_find(types, input) {
                None => Err(AdmissionError::NoPath),
                Some(next) => if fuel == 0 {
                    Err(AdmissionError::NoAcyclicPath)
                } else {
                    plan_walk(types, source, next, visited.push(current.spec_standard()), (fuel - 1) as nat)
                },
            }
        }
    }
}

/// Whether one target of the plan can be built from the source, or why not.
pub open spec fn target_check(types: Seq<BarType>, source: BarType, target: BarType) -> Result<
    (),
    AdmissionError,
> {
    if finer_than_source(target) {
        Err(AdmissionError::TargetFinerThanSource)
    } else {
        plan_walk(types, source, target, Seq::empty(), (types.len() + 1) as nat)
    }
}

/// The first refused target among the first `n` targets of the plan.
pub open spec fn plan_check(types: Seq<BarType>, source: BarType, n: nat) -> Result<(), AdmissionError>
    decreases n,
{
    if n == 0 {
        Ok(())
    } else {
        match plan_check(types, source, (n - 1) as nat) {
            Err(e) => Err(e),
            Ok(()) => target_check(types, source, types[n - 1]),
        }
    }
}

/// `chain` is an acyclic path of composite inputs from `target` through the plan to `source`:
/// it starts at `target`; every entry is composite; every later entry is a plan entry whose
/// standard part is the composite input of the entry before it; no standard part repeats; and
/// the composite input of the last entry is exactly `source`.
#[verifier::opaque]
pub open spec fn is_source_path(types: Seq<BarType>, source: BarType, target: BarType, chain: Seq<BarType>) -> bool {
    &&& chain.len() > 0
    &&& chain[0] == target
    &&& forall|k: int| 0 <= k < chain.len() ==> (#[trigger] chain[k]).spec_is_composite()
    &&& forall|k: int| 0 < k < chain.len() ==> types.contains(#[trigger] chain[k])
        && chain[k].spec_standard() == chain[k - 1].spec_composite().spec_standard()
    &&& forall|a: int, b: int| 0 <= a < b < chain.len() ==> (#[trigger] chain[a]).spec_standard()
        != (#[trigger] chain[b]).spec_standard()
    &&& chain.last().spec_composite().spec_standard() == source
}

/// Some acyclic path of composite inputs leads from `target` through the plan to `source`.
pub open spec fn reaches_source(types: Seq<BarType>, source: BarType, target: BarType) -> bool {
    exists|chain: Seq<BarType>| #[trigger] is_source_path(types, source, target, chain)
}

/// Every target of an accepted plan is built, along an acyclic path of composite inputs through
/// the plan, from exactly the original source, and none is a time aggregation finer than one
/// minute.
pub proof fn law_accepted_plan_reaches_source(types: Seq<BarType>, source: BarType)
    requires
        plan_check(types, source, types.len()) is Ok,
    ensures
        forall|i: int| 0 <= i < types.len() ==> reaches_source(types, source, #[trigger] types[i]),
        forall|i: int| 0 <= i < types.len() ==> {
            let spec = (#[trigger] types[i]).spec_spec();
            &&& !(spec.aggregation == BarAggregation::Millisecond && spec.step < 60_000)
            &&& !(spec.aggregation == BarAggregation::Second && spec.step < 60)
        },
{
    assert forall|i: int| 0 <= i < types.len() implies reaches_source(types, source, #[trigger] types[i]) by {
        let chain = lemma_target_path(types, source, i);
        assert(is_source_path(types, source, types[i], chain));
    }
    assert forall|i: int| 0 <= i < types.len() implies {
        let spec = (#[trigger] types[i]).spec_spec();
        &&& !(spec.aggregation == BarAggregation::Millisecond && spec.step < 60_000)
        &&& !(spec.aggregation == BarAggregation::Second && spec.step < 60)
    } by {
        lemma_target_coarse(types, source, i);
    }
}

/// No target of an accepted plan is finer than one minute.
proof fn lemma_target_coarse(types: Seq<BarType>, source: BarType, i: int)
    requires
        plan_check(types, source, types.len()) is Ok,
        0 <= i < types.len(),
    ensures
        !(types[i].spec_spec().aggregation == BarAggregation::Millisecond && types[i].spec_spec().step < 60_000),
        !(types[i].spec_spec().aggregation == BarAggregation::Second && types[i].spec_spec().step < 60),
{
    lemma_plan_check_each(types, source, types.len(), i);
}

/// One target of an accepted plan has a path to the source.
proof fn lemma_target_path(types: Seq<BarType>, source: BarType, i: int) -> (chain: Seq<BarType>)
    requires
        plan_check(types, source, types.len()) is Ok,
        0 <= i < types.len(),
    ensures
        is_source_path(types, source, types[i], chain),
{
    lemma_plan_check_each(types, source, types.len(), i);
    lemma_walk_path(types, source, types[i], Seq::empty(), (types.len() + 1) as nat)
}

/// Every target among the first `n` of an accepted plan passes its own check.
proof fn lemma_plan_check_each(types: Seq<BarType>, source: BarType, n: nat, i: int)
    requires
        n <= types.len(),
        plan_check(types, source, n) is Ok,
        0 <= i < n,
    ensures
        target_check(types, source, types[i]) is Ok,
    decreases n,
{
    if i < n - 1 {
        lemma_plan_check_each(types, source, (n - 1) as nat, i);
    }
}

/// A walk that reaches the source follows a path to it whose standard parts were not met before.
proof fn lemma_walk_path(
    types: Seq<BarType>,
    source: BarType,
    current: BarType,
    visited: Seq<BarType>,
    fuel: nat,
) -> (chain: Seq<BarType>)
    requires
        plan_walk(types, source, current, visited, fuel) is Ok,
    ensures
        is_source_path(types, source, current, chain),
        forall|k: int| 0 <= k < chain.len() ==> !visited.contains((#[trigger] chain[k]).spec_standard()),
    decreases fuel,
{
    reveal(is_source_path);
    let input = current.spec_composite().spec_standard();
    if input == source {
        let chain = seq![current];
        assert(chain.last() == current);
        chain
    } else {
        let next = plan_find(types, input)->0;
        lemma_plan_find(types, input);
        let seen = visited.push(current.spec_standard());
        let rest = lemma_walk_path(types, source, next, seen, (fuel - 1) as nat);
        let chain = seq![current] + rest;
        assert forall|k: int| 0 <= k < rest.len() implies !visited.contains((#[trigger] rest[k]).spec_standard())
            && rest[k].spec_standard() != current.spec_standard() by {
            assert(!seen.contains(rest[k].spec_standard()));
            if visited.contains(rest[k].spec_standard()) {
                let j = choose|j: int| 0 <= j < visited.len() && visited[j] == rest[k].spec_standard();
                assert(seen[j] == visited[j]);
            }
            if rest[k].spec_standard() == current.spec_standard() {
                assert(seen[visited.len() as int] == current.spec_standard());
            }
        }
        assert forall|k: int| 0 < k < chain.len() implies chain[k] == rest[k - 1] by {}
        assert forall|a: int, b: int| 0 <= a < b < chain.len() implies (#[trigger] chain[a]).spec_standard()
            != (#[trigger] chain[b]).spec_standard() by {
            assert(chain[b] == rest[b - 1]);
            if a > 0 {
                assert(chain[a] == rest[a - 1]);
            }
        }
        assert forall|k: int| 0 < k < chain.len() implies types.contains(#[trigger] chain[k])
            && chain[k].spec_standard() == chain[k - 1].spec_composite().spec_standard() by {
            assert(chain[k] == rest[k - 1]);
            if k > 1 {
                assert(chain[k - 1] == rest[k - 2]);
            }
        }
        assert forall|k: int| 0 <= k < chain.len() implies (#[trigger] chain[k]).spec_is_composite() by {
            if k > 0 {
                assert(chain[k] == rest[k - 1]);
            }
        }
        assert(chain.last() == rest.last());
        chain
    }
}

proof fn lemma_plan_find(types: Seq<BarType>, input: BarType)
    ensures
        plan_find(types, input) matches Some(c) ==> types.contains(c) && c.spec_standard() == input,
        plan_find(types, input) is None ==> forall|i: int| 0 <= i < types.len() ==> #[trigger] types[i].spec_standard() != input,
    decreases types.len(),
{
    if types.len() > 0 && types[0].spec_standard() != input {
        lemma_plan_find(types.drop_first(), input);
        if plan_find(types, input) is Some {
            let c = plan_find(types, input)->0;
            let j = choose|j: int| 0 <= j < types.drop_first().len() && types.drop_first()[j] == c;
            assert(types[j + 1] == c);
        } else {
            assert forall|i: int| 0 <= i < types.len() implies #[trigger] types[i].spec_standard() != input by {
                if i > 0 {
                    assert(types[i] == types.drop_first()[i - 1]);
                }
            }
        }
    } else if types.len() > 0 {
        assert(types[0] == types[0]);
    }
}

/// The first plan entry whose standard part is `input`.
fn find_target(types: &Vec<BarType>, input: BarType) -> (r: Option<BarType>)
    ensures
        r == plan_find(types@, input),
{
    let mut i: usize = 0;
    assert(types@.skip(0) =~= types@);
    while i < types.len()
        invariant
            i <= types@.len(),
            plan_find(types@, input) == plan_find(types@.skip(i as int), input),
        decreases types.len() - i,
    {
        if types[i].standard() == input {
            return Some(types[i]);
        }
        assert(types@.skip(i as int).drop_first() =~= types@.skip(i + 1));
        i = i + 1;
    }
    None
}

/// Checks that every target of the plan has an acyclic composite path to the original source
/// and none is a time aggregation finer than it.
pub fn check_plan(types: &Vec<BarType>, source: BarType) -> (r: Result<(), AdmissionError>)
    ensures
        r == plan_check(types@, source, types@.len()),
        r is Ok ==> forall|i: int| 0 <= i < types@.len() ==> reaches_source(types@, source, #[trigger] types@[i]),
{
    let mut t: usize = 0;
    while t < types.len()
        invariant
            t <= types@.len(),
            plan_check(types@, source, t as nat) is Ok,
        decreases types.len() - t,
    {
        let target = types[t];
        let spec = target.spec();
        let finer = (spec.aggregation == BarAggregation::Millisecond && spec.step < 60_000)
            || (spec.aggregation == BarAggregation::Second && spec.step < 60);
        if finer {
            proof {
                lemma_plan_check_stable(types@, source, (t + 1) as nat, types@.len());
            }
            return Err(AdmissionError::TargetFinerThanSource);
        }
        let mut current = target;
        let mut visited: Vec<BarType> = Vec::new();
        let type_count = types.len();
        let ghost len = types@.len();
        let ghost stds = plan_standards(types@);
        proof {
            stds.lemma_cardinality_of_set();
        }
        loop
            invariant
                len == types@.len(),
                type_count == len,
                stds == plan_standards(types@),
                stds.to_set().len() <= len,
                visited@.len() <= len + 1,
                visited@.no_duplicates(),
                visited@.len() > 0 ==> types@.contains(current),
                forall|j: int| 1 <= j < visited@.len() ==> stds.to_set().contains(#[trigger] visited@[j]),
                plan_walk(types@, source, current, visited@, (len + 1 - visited@.len()) as nat)
                    == target_check(types@, source, target),
                !finer_than_source(target),
                plan_check(types@, source, t as nat) is Ok,
                t < types@.len(),
                target == types@[t as int],
            ensures
                target_check(types@, source, target) is Ok,
            decreases len + 1 - visited@.len(),
        {
            let standard = current.standard();
            let mut seen = false;
            let mut k: usize = 0;
            while k < visited.len()
                invariant
                    k <= visited@.len(),
                    seen <==> exists|j: int| 0 <= j < k && #[trigger] visited@[j] == standard,
                decreases visited.len() - k,
            {
                if visited[k] == standard {
                    seen = true;
                }
                k = k + 1;
            }
            assert(seen <==> visited@.contains(standard));
            if !current.is_composite() || seen {
                proof {
                    assert(plan_check(types@, source, (t + 1) as nat) == target_check(types@, source, target));
                    lemma_plan_check_stable(types@, source, (t + 1) as nat, types@.len());
                }
                return Err(AdmissionError::NoAcyclicPath);
            }
            // More steps than plan entries would meet some standard target twice, which the
            // check above refuses; this branch cannot be taken.
            if visited.len() > type_count {
                proof {
                    broadcast use vstd::seq_lib::seq_to_set_is_finite;
                    let rest = visited@.drop_first();
                    assert(rest.no_duplicates());
                    rest.unique_seq_to_set();
                    assert forall|x: BarType| rest.to_set().contains(x) implies stds.to_set().contains(x) by {
                        let j = choose|j: int| 0 <= j < rest.len() && rest[j] == x;
                        assert(visited@[j + 1] == x);
                    }
                    vstd::set_lib::lemma_len_subset(rest.to_set(), stds.to_set());
                    vstd::set_lib::lemma_subset_equality(rest.to_set(), stds.to_set());
                    let j = choose|j: int| 0 <= j < types@.len() && types@[j] == current;
                    assert(stds[j] == standard);
                    assert(stds.to_set().contains(standard));
                    let m = choose|m: int| 0 <= m < rest.len() && rest[m] == standard;
                    assert(visited@[m + 1] == standard);
                    assert(false);
                }
            }
            let input = current.composite().standard();
            if input == source {
                break;
            }
            proof {
                if visited@.len() > 0 {
                    let j = choose|j: int| 0 <= j < types@.len() && types@[j] == current;
                    assert(stds[j] == standard);
                    assert(stds.to_set().contains(standard));
                }
            }
            visited.push(standard);
            current = match find_target(types, input) {
                Some(next) => next,
                None => {
                    proof {
                        assert(plan_check(types@, source, (t + 1) as nat) == target_check(types@, source, target));
                        lemma_plan_check_stable(types@, source, (t + 1) as nat, types@.len());
                    }
                    return Err(AdmissionError::NoPath);
                },
            };
            proof {
                lemma_plan_find(types@, input);
                let j = choose|j: int| 0 <= j < types@.len() && types@[j] == current;
                assert(stds[j] == current.spec_standard());
                assert(visited@.drop_last().no_duplicates());
            }
        }
        assert(plan_check(types@, source, (t + 1) as nat) is Ok);
        t = t + 1;
    }
    assert(t == types@.len());
    assert(plan_check(types@, source, t as nat) is Ok);
    let ghost u = plan_check(types@, source, types@.len())->Ok_0;
    assert(u == ());
    assert(plan_check(types@, source, types@.len()) == Ok::<(), AdmissionError>(()));
    proof {
        law_accepted_plan_reaches_source(types@, source);
    }
    Ok(())
}

/// Once a target is refused, the first refusal stays the same.
proof fn lemma_plan_check_stable(types: Seq<BarType>, source: BarType, n: nat, m: nat)
    requires
        n <= m,
        plan_check(types, source, n) is Err,
    ensures
        plan_check(types, source, m) == plan_check(types, source, n),
    decreases m - n,
{
    if n < m {
        lemma_plan_check_stable(types, source, n, (m - 1) as nat);
    }
}

} // verus!
