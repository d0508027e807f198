//! Historical bar responses, their engine-authored outcomes and admission failures.

use vstd::prelude::*;

use crate::messages::{
    clone_bar_types, clone_params, params_view, ParamValueView, Params, RequestBars,
    RequestBarsView,
};
use crate::model::{Bar, BarType, ClientId, UUID4};

verus! {

/// Data stamped with a receipt time in UNIX nanoseconds.
pub trait HasTsInit {
    spec fn spec_ts_init(&self) -> u64;

    fn ts_init(&self) -> (r: u64)
        ensures
            r == self.spec_ts_init(),
    ;
}

impl HasTsInit for Bar {
    open spec fn spec_ts_init(&self) -> u64 {
        self.ts_init
    }

    fn ts_init(&self) -> (r: u64) {
        self.ts_init
    }
}

/// The index of the first entry stamped at or after `start`, or the length when there is none.
pub open spec fn first_at_or_after<T: HasTsInit>(data: Seq<T>, start: u64) -> int
    decreases data.len(),
{
    if data.len() == 0 {
        0
    } else if data[0].spec_ts_init() >= start {
        0
    } else {
        1 + first_at_or_after(data.drop_first(), start)
    }
}

/// The index of the last entry stamped at or before `end`, or -1 when there is none.
pub open spec fn last_at_or_before<T: HasTsInit>(data: Seq<T>, end: u64) -> int
    decreases data.len(),
{
    if data.len() == 0 {
        -1
    } else if data.last().spec_ts_init() <= end {
        data.len() - 1
    } else {
        last_at_or_before(data.drop_last(), end)
    }
}

/// The entries from the first one at or after `start` to the last one at or before `end`.
pub open spec fn trim_window<T: HasTsInit>(data: Seq<T>, start: Option<u64>, end: Option<u64>) -> Seq<T> {
    let first = match start {
        Some(s) => first_at_or_after(data, s),
        None => 0,
    };
    let last = match end {
        Some(e) => last_at_or_before(data, e),
        None => data.len() - 1,
    };
    if data.len() == 0 {
        data
    } else if first >= data.len() || last < 0 || first > last {
        Seq::empty()
    } else {
        data.subrange(first, last + 1)
    }
}

proof fn lemma_first_at_or_after<T: HasTsInit>(data: Seq<T>, start: u64)
    ensures
        0 <= first_at_or_after(data, start) <= data.len(),
        first_at_or_after(data, start) < data.len() ==> data[first_at_or_after(
            data,
            start,
        )].spec_ts_init() >= start,
        forall|j: int| 0 <= j < first_at_or_after(data, start) ==> data[j].spec_ts_init() < start,
    decreases data.len(),
{
    if data.len() > 0 && data[0].spec_ts_init() < start {
        lemma_first_at_or_after(data.drop_first(), start);
        assert forall|j: int| 0 <= j < first_at_or_after(data, start) implies data[j].spec_ts_init()
            < start by {
            if j > 0 {
                assert(data[j] == data.drop_first()[j - 1]);
            }
        }
    }
}

proof fn lemma_last_at_or_before<T: HasTsInit>(data: Seq<T>, end: u64)
    ensures
        -1 <= last_at_or_before(data, end) < data.len(),
        last_at_or_before(data, end) >= 0 ==> data[last_at_or_before(data, end)].spec_ts_init()
            <= end,
        forall|j: int| last_at_or_before(data, end) < j < data.len() ==> data[j].spec_ts_init()
            > end,
    decreases data.len(),
{
    if data.len() > 0 && data.last().spec_ts_init() > end {
        lemma_last_at_or_before(data.drop_last(), end);
        assert forall|j: int| last_at_or_before(data, end) < j < data.len() implies data[j].spec_ts_init()
            > end by {
            if j < data.len() - 1 {
                assert(data[j] == data.drop_last()[j]);
            }
        }
    }
}

/// Trims `data` to the inclusive `[start, end]` window on receipt time.
///
/// With `start` set, leading entries stamped before it are dropped; with `end` set, trailing
/// entries stamped after it are dropped. Empty data and absent bounds are left alone. When the
/// bounds do not overlap the data, it is cleared.
pub fn trim_data_to_bounds<T: HasTsInit>(data: &mut Vec<T>, start: Option<u64>, end: Option<u64>)
    ensures
        final(data)@ == trim_window(old(data)@, start, end),
{
    let data_len = data.len();
    if data_len == 0 {
        return;
    }
    let first_index: usize = if let Some(start) = start {
        proof {
            lemma_first_at_or_after(data@, start);
        }
        let mut i: usize = 0;
        while i < data_len
            invariant
                data_len == data@.len(),
                i <= first_at_or_after(data@, start),
                0 <= first_at_or_after(data@, start) <= data@.len(),
                first_at_or_after(data@, start) < data@.len() ==> data@[first_at_or_after(
                    data@,
                    start,
                )].spec_ts_init() >= start,
                forall|k: int| 0 <= k < first_at_or_after(data@, start) ==> data@[k].spec_ts_init()
                    < start,
            ensures
                i == first_at_or_after(data@, start),
            decreases data_len - i,
        {
            if data[i].ts_init() >= start {
                break;
            }
            i = i + 1;
        }
        if i == data_len {
            data.clear();
            assert(data@ =~= trim_window(old(data)@, Some(start), end));
            return;
        }
        i
    } else {
        0
    };
    let last_index: usize = if let Some(end) = end {
        proof {
            lemma_last_at_or_before(data@, end);
        }
        let mut j: usize = data_len;
        while j > 0
            invariant
                data_len == data@.len(),
                j <= data_len,
                last_at_or_before(data@, end) < j,
                -1 <= last_at_or_before(data@, end) < data@.len(),
                last_at_or_before(data@, end) >= 0 ==> data@[last_at_or_before(
                    data@,
                    end,
                )].spec_ts_init() <= end,
                forall|k: int| last_at_or_before(data@, end) < k < data@.len() ==> data@[
                    k].spec_ts_init() > end,
            ensures
                last_at_or_before(data@, end) == j - 1,
            decreases j,
        {
            if data[j - 1].ts_init() <= end {
                break;
            }
            j = j - 1;
        }
        if j == 0 {
            data.clear();
            assert(data@ =~= trim_window(old(data)@, start, Some(end)));
            return;
        }
        j - 1
    } else {
        data_len - 1
    };
    if first_index <= last_index {
        let tail = data.split_off(first_index);
        *data = tail;
        data.truncate(last_index - first_index + 1);
        assert(data@ =~= old(data)@.subrange(first_index as int, last_index + 1));
    } else {
        data.clear();
        assert(data@ =~= trim_window(old(data)@, start, end));
    }
}

/// An entry stamped inside the inclusive window.
pub open spec fn within_bounds<T: HasTsInit>(x: T, start: Option<u64>, end: Option<u64>) -> bool {
    &&& match start {
        Some(s) => x.spec_ts_init() >= s,
        None => true,
    }
    &&& match end {
        Some(e) => x.spec_ts_init() <= e,
        None => true,
    }
}

/// On data sorted by receipt time, trimming keeps exactly the entries inside the window, in
/// order: a contiguous run `[a, b)` that holds every entry inside it and no other.
pub proof fn law_trim_keeps_window_of_sorted<T: HasTsInit>(
    data: Seq<T>,
    start: Option<u64>,
    end: Option<u64>,
) -> (run: (int, int))
    requires
        forall|i: int, j: int|
            0 <= i < j < data.len() ==> data[i].spec_ts_init() <= data[j].spec_ts_init(),
    ensures
        0 <= run.0 <= run.1 <= data.len(),
        trim_window(data, start, end) == data.subrange(run.0, run.1),
        forall|i: int|
            0 <= i < data.len() ==> ((run.0 <= i < run.1) <==> within_bounds(
                #[trigger] data[i],
                start,
                end,
            )),
{
    let n = data.len() as int;
    let first = match start {
        Some(s) => first_at_or_after(data, s),
        None => 0,
    };
    let last = match end {
        Some(e) => last_at_or_before(data, e),
        None => n - 1,
    };
    if let Some(s) = start {
        lemma_first_at_or_after(data, s);
    }
    if let Some(e) = end {
        lemma_last_at_or_before(data, e);
    }
    if n == 0 {
        assert(trim_window(data, start, end) == data.subrange(0, 0));
        (0, 0)
    } else if first >= n || last < 0 || first > last {
        assert(trim_window(data, start, end) =~= data.subrange(0, 0));
        assert forall|i: int| 0 <= i < n implies !within_bounds(#[trigger] data[i], start, end) by {
            if within_bounds(data[i], start, end) {
                if let Some(s) = start {
                    assert(i >= first);
                }
                if let Some(e) = end {
                    assert(i <= last);
                }
            }
        }
        (0, 0)
    } else {
        assert forall|i: int| 0 <= i < n implies ((first <= i < last + 1) <==> within_bounds(
            #[trigger] data[i],
            start,
            end,
        )) by {
            if first <= i <= last {
                if let Some(s) = start {
                    assert(data[first].spec_ts_init() <= data[i].spec_ts_init());
                }
                if let Some(e) = end {
                    assert(data[i].spec_ts_init() <= data[last].spec_ts_init());
                }
            }
        }
        assert(trim_window(data, start, end) == data.subrange(first, last + 1));
        (first, last + 1)
    }
}

pub fn clone_bars(v: &Vec<Bar>) -> (r: Vec<Bar>)
    ensures
        r@ == v@,
{
    let mut r: Vec<Bar> = Vec::new();
    for i in 0..v.len()
        invariant
            r@ == v@.subrange(0, i as int),
    {
        r.push(v[i]);
        assert(r@ =~= v@.subrange(0, i + 1));
    }
    assert(v@.subrange(0, v@.len() as int) =~= v@);
    r
}

/// Actual aggregate output for one explicitly requested standard target bar type.
///
/// Empty data keeps its target identity.
#[derive(Debug)]
pub struct HistoricalBarsBatch {
    pub bar_type: BarType,
    pub data: Vec<Bar>,
}

impl View for HistoricalBarsBatch {
    type V = (BarType, Seq<Bar>);

    open spec fn view(&self) -> (BarType, Seq<Bar>) {
        (self.bar_type, self.data@)
    }
}

impl Clone for HistoricalBarsBatch {
    fn clone(&self) -> (r: Self)
        ensures
            r@ == self@,
    {
        HistoricalBarsBatch { bar_type: self.bar_type, data: clone_bars(&self.data) }
    }
}

pub open spec fn batches_view(v: Seq<HistoricalBarsBatch>) -> Seq<(BarType, Seq<Bar>)> {
    v.map_values(|b: HistoricalBarsBatch| b@)
}

pub fn clone_batches(v: &Vec<HistoricalBarsBatch>) -> (r: Vec<HistoricalBarsBatch>)
    ensures
        batches_view(r@) == batches_view(v@),
{
    let mut r: Vec<HistoricalBarsBatch> = Vec::new();
    for i in 0..v.len()
        invariant
            r@.len() == i,
            forall|j: int| 0 <= j < i ==> #[trigger] r@[j]@ == v@[j]@,
    {
        r.push(v[i].clone());
    }
    assert(batches_view(r@) =~= batches_view(v@));
    r
}

/// Outcome of opt-in historical source validation and request-local aggregation.
#[derive(Debug)]
pub enum HistoricalBarsOutcome {
    /// The complete original source and its request-local aggregation passed validation:
    /// one named batch per original target, in target order.
    Validated { aggregates: Vec<HistoricalBarsBatch> },
    /// The source, query or aggregation failed; no partial bars are returned.
    Failed { error: String, aggregate_bar_types: Vec<BarType> },
}

/// The mathematical value of a [`HistoricalBarsOutcome`].
pub enum HistoricalBarsOutcomeView {
    Validated { aggregates: Seq<(BarType, Seq<Bar>)> },
    Failed { error: Seq<char>, aggregate_bar_types: Seq<BarType> },
}

impl View for HistoricalBarsOutcome {
    type V = HistoricalBarsOutcomeView;

    open spec fn view(&self) -> HistoricalBarsOutcomeView {
        match self {
            HistoricalBarsOutcome::Validated { aggregates } => HistoricalBarsOutcomeView::Validated {
                aggregates: batches_view(aggregates@),
            },
            HistoricalBarsOutcome::Failed { error, aggregate_bar_types } =>
                HistoricalBarsOutcomeView::Failed {
                error: error@,
                aggregate_bar_types: aggregate_bar_types@,
            },
        }
    }
}

impl Clone for HistoricalBarsOutcome {
    fn clone(&self) -> (r: Self)
        ensures
            r@ == self@,
    {
        match self {
            HistoricalBarsOutcome::Validated { aggregates } => HistoricalBarsOutcome::Validated {
                aggregates: clone_batches(aggregates),
            },
            HistoricalBarsOutcome::Failed { error, aggregate_bar_types } =>
                HistoricalBarsOutcome::Failed {
                error: error.clone(),
                aggregate_bar_types: clone_bar_types(aggregate_bar_types),
            },
        }
    }
}

pub open spec fn outcome_view(o: Option<HistoricalBarsOutcome>) -> Option<
    HistoricalBarsOutcomeView,
> {
    match o {
        Some(o) => Some(o@),
        None => None,
    }
}

/// A page of historical bars answering one request.
#[derive(Debug)]
pub struct BarsResponse {
    pub correlation_id: UUID4,
    pub client_id: ClientId,
    pub bar_type: BarType,
    pub data: Vec<Bar>,
    pub ts_init: u64,
    pub start: Option<u64>,
    pub end: Option<u64>,
    pub params: Option<Params>,
    /// Engine-authored outcome, absent for the default partial-history profile.
    pub historical_outcome: Option<HistoricalBarsOutcome>,
}

/// The mathematical value of a [`BarsResponse`].
pub struct BarsResponseView {
    pub correlation_id: UUID4,
    pub client_id: ClientId,
    pub bar_type: BarType,
    pub data: Seq<Bar>,
    pub ts_init: u64,
    pub start: Option<u64>,
    pub end: Option<u64>,
    pub params: Option<Seq<(Seq<char>, ParamValueView)>>,
    pub historical_outcome: Option<HistoricalBarsOutcomeView>,
}

impl View for BarsResponse {
    type V = BarsResponseView;

    open spec fn view(&self) -> BarsResponseView {
        BarsResponseView {
            correlation_id: self.correlation_id,
            client_id: self.client_id,
            bar_type: self.bar_type,
            data: self.data@,
            ts_init: self.ts_init,
            start: self.start,
            end: self.end,
            params: params_view(self.params),
            historical_outcome: outcome_view(self.historical_outcome),
        }
    }
}

impl Clone for BarsResponse {
    fn clone(&self) -> (r: Self)
        ensures
            r@ == self@,
    {
        BarsResponse {
            correlation_id: self.correlation_id,
            client_id: self.client_id,
            bar_type: self.bar_type,
            data: clone_bars(&self.data),
            ts_init: self.ts_init,
            start: self.start,
            end: self.end,
            params: clone_params(&self.params),
            historical_outcome: match &self.historical_outcome {
                Some(o) => Some(o.clone()),
                None => None,
            },
        }
    }
}

impl BarsResponse {
    /// Creates a new [`BarsResponse`] without an outcome.
    #[allow(clippy::too_many_arguments)]
    pub fn new(
        correlation_id: UUID4,
        client_id: ClientId,
        bar_type: BarType,
        data: Vec<Bar>,
        start: Option<u64>,
        end: Option<u64>,
        ts_init: u64,
        params: Option<Params>,
    ) -> (r: Self)
        ensures
            r.correlation_id == correlation_id,
            r.client_id == client_id,
            r.bar_type == bar_type,
            r.data == data,
            r.start == start,
            r.end == end,
            r.ts_init == ts_init,
            r.params == params,
            r.historical_outcome is None,
    {
        BarsResponse {
            correlation_id,
            client_id,
            bar_type,
            data,
            ts_init,
            start,
            end,
            params,
            historical_outcome: None,
        }
    }
}

/// An engine-authored admission or deadline failure of a historical request.
///
/// It carries the original request intent, not a bar payload. `client_id` is a source that was
/// actually resolved, and can be absent; the requested client hint stays in `request`.
#[derive(Debug)]
pub struct HistoricalBarsRequestFailure {
    pub request: RequestBars,
    pub client_id: Option<ClientId>,
    pub error: String,
    pub aggregate_bar_types: Vec<BarType>,
    pub ts_init: u64,
}

/// The mathematical value of a [`HistoricalBarsRequestFailure`].
pub struct HistoricalBarsRequestFailureView {
    pub request: RequestBarsView,
    pub client_id: Option<ClientId>,
    pub error: Seq<char>,
    pub aggregate_bar_types: Seq<BarType>,
    pub ts_init: u64,
}

impl View for HistoricalBarsRequestFailure {
    type V = HistoricalBarsRequestFailureView;

    open spec fn view(&self) -> HistoricalBarsRequestFailureView {
        HistoricalBarsRequestFailureView {
            request: self.request@,
            client_id: self.client_id,
            error: self.error@,
            aggregate_bar_types: self.aggregate_bar_types@,
            ts_init: self.ts_init,
        }
    }
}

impl Clone for HistoricalBarsRequestFailure {
    fn clone(&self) -> (r: Self)
        ensures
            r@ == self@,
    {
        HistoricalBarsRequestFailure {
            request: self.request.clone(),
            client_id: self.client_id,
            error: self.error.clone(),
            aggregate_bar_types: clone_bar_types(&self.aggregate_bar_types),
            ts_init: self.ts_init,
        }
    }
}

/// A data response, as far as the historical validation distinguishes it.
#[derive(Debug)]
pub enum DataResponse {
    Bars(BarsResponse),
    BarsRequestFailed(HistoricalBarsRequestFailure),
    Other { correlation_id: UUID4, record_count: Option<usize> },
}

/// The mathematical value of a [`DataResponse`].
pub enum DataResponseView {
    Bars(BarsResponseView),
    BarsRequestFailed(HistoricalBarsRequestFailureView),
    Other { correlation_id: UUID4, record_count: Option<usize> },
}

impl View for DataResponse {
    type V = DataResponseView;

    open spec fn view(&self) -> DataResponseView {
        match self {
            DataResponse::Bars(b) => DataResponseView::Bars(b@),
            DataResponse::BarsRequestFailed(f) => DataResponseView::BarsRequestFailed(f@),
            DataResponse::Other { correlation_id, record_count } => DataResponseView::Other {
                correlation_id: *correlation_id,
                record_count: *record_count,
            },
        }
    }
}

impl DataResponseView {
    pub open spec fn correlation_id(self) -> UUID4 {
        match self {
            DataResponseView::Bars(b) => b.correlation_id,
            DataResponseView::BarsRequestFailed(f) => f.request.request_id,
            DataResponseView::Other { correlation_id, .. } => correlation_id,
        }
    }

    pub open spec fn record_count(self) -> Option<usize> {
        match self {
            DataResponseView::Bars(b) => if b.data.len() <= usize::MAX {
                Some(b.data.len() as usize)
            } else {
                None
            },
            DataResponseView::BarsRequestFailed(_) => None,
            DataResponseView::Other { record_count, .. } => record_count,
        }
    }
}

impl DataResponse {
    /// The request this response answers.
    pub fn correlation_id(&self) -> (r: UUID4)
        ensures
            r == self@.correlation_id(),
    {
        match self {
            DataResponse::Bars(b) => b.correlation_id,
            DataResponse::BarsRequestFailed(f) => f.request.request_id,
            DataResponse::Other { correlation_id, .. } => *correlation_id,
        }
    }

    /// The number of data records the response carries, where it carries any.
    pub fn record_count(&self) -> (r: Option<usize>)
        ensures
            r == self@.record_count(),
    {
        match self {
            DataResponse::Bars(b) => Some(b.data.len()),
            DataResponse::BarsRequestFailed(_) => None,
            DataResponse::Other { record_count, .. } => *record_count,
        }
    }
}

} // verus!
