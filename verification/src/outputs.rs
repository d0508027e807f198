//! Bounded actual aggregate output, private to one original request and its frozen target plan.

use vstd::prelude::*;

use crate::error::SourceError;
use crate::messages::RequestBarAggregation;
use crate::model::{Bar, BarType};
use crate::response::{batches_view, HistoricalBarsBatch};

verus! {

/// Aggregate output collected per target, bounded by the original request's limit.
#[derive(Debug)]
pub struct HistoricalBarOutputs {
    batches: Vec<HistoricalBarsBatch>,
    max_per_target: usize,
    error: Option<String>,
    closed: bool,
}

/// The mathematical value of [`HistoricalBarOutputs`].
pub struct HistoricalBarOutputsView {
    pub batches: Seq<(BarType, Seq<Bar>)>,
    pub max_per_target: usize,
    pub error: Option<Seq<char>>,
    pub closed: bool,
}

impl View for HistoricalBarOutputs {
    type V = HistoricalBarOutputsView;

    closed spec fn view(&self) -> HistoricalBarOutputsView {
        HistoricalBarOutputsView {
            batches: batches_view(self.batches@),
            max_per_target: self.max_per_target,
            error: match self.error {
                Some(e) => Some(e@),
                None => None,
            },
            closed: self.closed,
        }
    }
}

/// The standard target bar types of a plan, in plan order.
pub open spec fn plan_standards(targets: Seq<BarType>) -> Seq<BarType> {
    targets.map_values(|t: BarType| t.spec_standard())
}

/// The position of the batch for `bar_type`, or the number of batches when there is none.
pub open spec fn batch_position(batches: Seq<(BarType, Seq<Bar>)>, bar_type: BarType) -> int
    decreases batches.len(),
{
    if batches.len() == 0 {
        0
    } else if batches[0].0 == bar_type {
        0
    } else {
        1 + batch_position(batches.drop_first(), bar_type)
    }
}

pub open spec fn unrequested_text() -> Seq<char> {
    "Native aggregate output has an unrequested BarType"@
}

pub open spec fn exceeds_bound_text() -> Seq<char> {
    "Native aggregate output exceeds original source count bound"@
}

/// What recording `bar` does to the outputs, and whether it was kept.
pub open spec fn record_step(o: HistoricalBarOutputsView, bar: Bar) -> (HistoricalBarOutputsView, bool) {
    let i = batch_position(o.batches, bar.bar_type);
    if o.closed || o.error is Some {
        (o, false)
    } else if i >= o.batches.len() {
        (HistoricalBarOutputsView { error: Some(unrequested_text()), ..o }, false)
    } else if o.batches[i].1.len() >= o.max_per_target {
        (HistoricalBarOutputsView { error: Some(exceeds_bound_text()), ..o }, false)
    } else {
        (
            HistoricalBarOutputsView {
                batches: o.batches.update(i, (o.batches[i].0, o.batches[i].1.push(bar))),
                ..o
            },
            true,
        )
    }
}

proof fn lemma_batch_position(batches: Seq<(BarType, Seq<Bar>)>, bar_type: BarType)
    ensures
        0 <= batch_position(batches, bar_type) <= batches.len(),
        batch_position(batches, bar_type) < batches.len() ==> batches[batch_position(
            batches,
            bar_type,
        )].0 == bar_type,
        forall|j: int| 0 <= j < batch_position(batches, bar_type) ==> batches[j].0 != bar_type,
    decreases batches.len(),
{
    if batches.len() > 0 && batches[0].0 != bar_type {
        lemma_batch_position(batches.drop_first(), bar_type);
        assert forall|j: int| 0 <= j < batch_position(batches, bar_type) implies batches[j].0
            != bar_type by {
            if j > 0 {
                assert(batches[j] == batches.drop_first()[j - 1]);
            }
        }
    }
}

impl HistoricalBarOutputsView {
    /// Batches hold their own target's bars only, within the bound, one batch per target.
    pub open spec fn wf(self) -> bool {
        &&& forall|i: int| 0 <= i < self.batches.len() ==> #[trigger] self.batches[i].1.len()
            <= self.max_per_target
        &&& forall|i: int, k: int|
            0 <= i < self.batches.len() && 0 <= k < self.batches[i].1.len() ==> (
            #[trigger] self.batches[i].1[k]).bar_type == self.batches[i].0
        &&& forall|i: int, j: int|
            0 <= i < j < self.batches.len() ==> #[trigger] self.batches[i].0
                != #[trigger] self.batches[j].0
    }
}

/// The outputs after recording `bars`, in order.
pub open spec fn record_all(o: HistoricalBarOutputsView, bars: Seq<Bar>) -> HistoricalBarOutputsView
    decreases bars.len(),
{
    if bars.len() == 0 {
        o
    } else {
        record_step(record_all(o, bars.drop_last()), bars.last()).0
    }
}

/// The target bar types of the batches, in order.
pub open spec fn batch_targets(batches: Seq<(BarType, Seq<Bar>)>) -> Seq<BarType> {
    batches.map_values(|b: (BarType, Seq<Bar>)| b.0)
}

proof fn lemma_record_step(o: HistoricalBarOutputsView, bar: Bar)
    requires
        o.wf(),
    ensures
        record_step(o, bar).0.wf(),
        record_step(o, bar).0.max_per_target == o.max_per_target,
        record_step(o, bar).0.closed == o.closed,
        batch_targets(record_step(o, bar).0.batches) == batch_targets(o.batches),
        o.error is Some || o.closed ==> record_step(o, bar) == (o, false),
        o.error is Some ==> record_step(o, bar).0.error == o.error,
{
    lemma_batch_position(o.batches, bar.bar_type);
    let r = record_step(o, bar).0;
    let i = batch_position(o.batches, bar.bar_type);
    if !(o.closed || o.error is Some) && i < o.batches.len() && o.batches[i].1.len() < o.max_per_target {
        assert forall|j: int| 0 <= j < r.batches.len() implies #[trigger] r.batches[j].1.len() <= r.max_per_target by {
            if j != i {
                assert(r.batches[j] == o.batches[j]);
            }
        }
        assert forall|j: int, k: int| 0 <= j < r.batches.len() && 0 <= k < r.batches[j].1.len()
            implies (#[trigger] r.batches[j].1[k]).bar_type == r.batches[j].0 by {
            if j != i {
                assert(r.batches[j] == o.batches[j]);
            } else if k < o.batches[i].1.len() {
                assert(r.batches[j].1[k] == o.batches[i].1[k]);
            }
        }
        assert forall|j: int, k: int| 0 <= j < k < r.batches.len() implies #[trigger] r.batches[j].0
            != #[trigger] r.batches[k].0 by {
            assert(r.batches[j].0 == o.batches[j].0);
            assert(r.batches[k].0 == o.batches[k].0);
        }
    }
    assert(batch_targets(r.batches) =~= batch_targets(o.batches));
}

/// Whatever is recorded, the outputs keep their targets, in order, their bound and every
/// batch within it; once they have failed or closed, recording changes nothing.
pub proof fn law_recording_keeps_targets_and_bound(o: HistoricalBarOutputsView, bars: Seq<Bar>)
    requires
        o.wf(),
    ensures
        record_all(o, bars).wf(),
        record_all(o, bars).max_per_target == o.max_per_target,
        batch_targets(record_all(o, bars).batches) == batch_targets(o.batches),
        o.error is Some || o.closed ==> record_all(o, bars) == o,
    decreases bars.len(),
{
    if bars.len() > 0 {
        law_recording_keeps_targets_and_bound(o, bars.drop_last());
        lemma_record_step(record_all(o, bars.drop_last()), bars.last());
        if o.error is Some {
            assert(record_all(o, bars.drop_last()).error is Some);
        }
    }
}

impl HistoricalBarOutputs {
    /// Starts empty output for each standard target of the plan, in plan order.
    pub fn new(state: Option<&RequestBarAggregation>, max_per_target: usize) -> (res: Result<
        Self,
        SourceError,
    >)
        ensures
            match state {
                None => res matches Ok(o) && o@.batches == Seq::<(BarType, Seq<Bar>)>::empty(),
                Some(state) => {
                    &&& res is Ok <==> plan_standards(state.bar_types@).no_duplicates()
                    &&& res is Err ==> res == Err::<Self, SourceError>(
                        SourceError::DuplicateTargets,
                    )
                    &&& res matches Ok(o) ==> o@.batches == plan_standards(
                        state.bar_types@,
                    ).map_values(|t: BarType| (t, Seq::<Bar>::empty()))
                },
            },
            res matches Ok(o) ==> {
                &&& o@.max_per_target == max_per_target
                &&& o@.error is None
                &&& !o@.closed
                &&& o@.wf()
            },
    {
        let mut batches: Vec<HistoricalBarsBatch> = Vec::new();
        if let Some(plan) = state {
            let ghost standards = plan_standards(plan.bar_types@);
            for t in 0..plan.bar_types.len()
                invariant
                    state == Some(plan),
                    standards == plan_standards(plan.bar_types@),
                    batches@.len() == t,
                    forall|j: int| 0 <= j < t ==> #[trigger] batches@[j]@ == (
                        standards[j],
                        Seq::<Bar>::empty(),
                    ),
                    standards.subrange(0, t as int).no_duplicates(),
            {
                let bar_type = plan.bar_types[t].standard();
                let mut k: usize = 0;
                while k < batches.len()
                    invariant
                        k <= batches@.len(),
                        batches@.len() == t,
                        state == Some(plan),
                        t < plan.bar_types@.len(),
                        bar_type == standards[t as int],
                        standards == plan_standards(plan.bar_types@),
                        forall|j: int| 0 <= j < t ==> #[trigger] batches@[j]@ == (
                            standards[j],
                            Seq::<Bar>::empty(),
                        ),
                        forall|j: int| 0 <= j < k ==> standards[j] != bar_type,
                    decreases batches.len() - k,
                {
                    assert(batches@[k as int]@.0 == standards[k as int]);
                    if batches[k].bar_type == bar_type {
                        assert(!standards.no_duplicates());
                        return Err(SourceError::DuplicateTargets);
                    }
                    k = k + 1;
                }
                batches.push(HistoricalBarsBatch { bar_type, data: Vec::new() });
                assert(standards.subrange(0, t + 1) =~= standards.subrange(0, t as int).push(
                    bar_type,
                ));
            }
            assert(standards.subrange(0, standards.len() as int) =~= standards);
            assert(batches_view(batches@) =~= standards.map_values(
                |t: BarType| (t, Seq::<Bar>::empty()),
            ));
        } else {
            assert(batches_view(batches@) =~= Seq::<(BarType, Seq<Bar>)>::empty());
        }
        Ok(HistoricalBarOutputs { batches, max_per_target, error: None, closed: false })
    }

    /// Records one actual aggregator emission without cache effects.
    pub fn record(&mut self, bar: Bar) -> (kept: bool)
        requires
            old(self)@.wf(),
        ensures
            (final(self)@, kept) == record_step(old(self)@, bar),
            final(self)@.wf(),
    {
        if self.closed || self.error.is_some() {
            return false;
        }
        let ghost batches = self@.batches;
        proof {
            lemma_batch_position(batches, bar.bar_type);
        }
        let mut i: usize = 0;
        while i < self.batches.len()
            invariant
                i <= self.batches@.len(),
                batches == self@.batches,
                i <= batch_position(batches, bar.bar_type),
                0 <= batch_position(batches, bar.bar_type) <= batches.len(),
                batch_position(batches, bar.bar_type) < batches.len() ==> batches[batch_position(
                    batches,
                    bar.bar_type,
                )].0 == bar.bar_type,
                forall|j: int| 0 <= j < batch_position(batches, bar.bar_type) ==> batches[j].0
                    != bar.bar_type,
            ensures
                i < self.batches@.len() ==> batches[i as int].0 == bar.bar_type,
                i <= self.batches@.len(),
            decreases self.batches.len() - i,
        {
            if self.batches[i].bar_type == bar.bar_type {
                break;
            }
            assert(batches[i as int].0 != bar.bar_type);
            i = i + 1;
        }
        if i >= self.batches.len() {
            self.error = Some(String::from_str("Native aggregate output has an unrequested BarType"));
            return false;
        }
        assert(i == batch_position(batches, bar.bar_type));
        if self.batches[i].data.len() >= self.max_per_target {
            self.error = Some(
                String::from_str("Native aggregate output exceeds original source count bound"),
            );
            return false;
        }
        let mut batch = self.batches.remove(i);
        batch.data.push(bar);
        self.batches.insert(i, batch);
        proof {
            assert(batches_view(self.batches@) =~= batches.update(
                i as int,
                (batches[i as int].0, batches[i as int].1.push(bar)),
            ));
        }
        true
    }

    /// Closes the outputs; gives the batches, or the first recording error.
    pub fn finish(&mut self) -> (res: Result<Vec<HistoricalBarsBatch>, String>)
        ensures
            final(self)@.closed,
            final(self)@.max_per_target == old(self)@.max_per_target,
            final(self)@.error == old(self)@.error,
            match old(self)@.error {
                Some(e) => res matches Err(r) && r@ == e && final(self)@.batches == old(
                    self,
                )@.batches,
                None => res matches Ok(b) && batches_view(b@) == old(self)@.batches
                    && final(self)@.batches == Seq::<(BarType, Seq<Bar>)>::empty(),
            },
    {
        self.closed = true;
        if let Some(e) = &self.error {
            return Err(e.clone());
        }
        let mut batches: Vec<HistoricalBarsBatch> = Vec::new();
        std::mem::swap(&mut batches, &mut self.batches);
        assert(batches_view(self.batches@) =~= Seq::<(BarType, Seq<Bar>)>::empty());
        Ok(batches)
    }

    /// The current output, with its closing and error state.
    pub fn is_closed(&self) -> (r: bool)
        ensures
            r == self@.closed,
    {
        self.closed
    }
}

} // verus!
