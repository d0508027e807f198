//! Read-only views of engine-authored historical bar responses.
//!
//! A response view owns the response it was made from; outcome and batch views share that same
//! response, so keeping a view does not depend on an engine buffer or a later request. The views
//! cannot be built around anything but a response or a failure and offer no way to change them.
//! Collection methods hand out copies.

use std::sync::Arc;

use vstd::prelude::*;

use crate::messages::{clone_bar_types, clone_params, params_view, Params};
use crate::model::{Bar, BarType, ClientId, UUID4};
use crate::response::{
    clone_bars, BarsResponse, BarsResponseView, HistoricalBarsBatch, HistoricalBarsOutcome,
    HistoricalBarsOutcomeView, HistoricalBarsRequestFailure, HistoricalBarsRequestFailureView,
};

verus! {

/// Hands out a second owner of the same allocation through `Arc::clone`; the value behind the
/// new owner is the value behind the given one.
#[verifier::external_body]
fn share<T>(value: &Arc<T>) -> (shared: Arc<T>)
    ensures
        shared == *value,
{
    Arc::clone(value)
}

/// A view of an admission or deadline failure of a historical bars request.
pub struct PyHistoricalBarsRequestFailure {
    failure: Arc<HistoricalBarsRequestFailure>,
}

impl View for PyHistoricalBarsRequestFailure {
    type V = HistoricalBarsRequestFailureView;

    closed spec fn view(&self) -> HistoricalBarsRequestFailureView {
        self.failure@
    }
}

impl From<HistoricalBarsRequestFailure> for PyHistoricalBarsRequestFailure {
    fn from(failure: HistoricalBarsRequestFailure) -> (r: Self)
        ensures
            r@ == failure@,
    {
        PyHistoricalBarsRequestFailure { failure: Arc::new(failure) }
    }
}

impl vstd::std_specs::convert::FromSpecImpl<HistoricalBarsRequestFailure> for
    PyHistoricalBarsRequestFailure {
    open spec fn obeys_from_spec() -> bool {
        true
    }

    closed spec fn from_spec(v: HistoricalBarsRequestFailure) -> Self {
        PyHistoricalBarsRequestFailure { failure: Arc::new(v) }
    }
}

impl Clone for PyHistoricalBarsRequestFailure {
    fn clone(&self) -> (r: Self)
        ensures
            r@ == self@,
    {
        PyHistoricalBarsRequestFailure { failure: share(&self.failure) }
    }
}

impl PyHistoricalBarsRequestFailure {
    /// The ID of the failed request.
    pub fn correlation_id(&self) -> (r: UUID4)
        ensures
            r == self@.request.request_id,
    {
        self.failure.request.request_id
    }

    /// The source client that was actually resolved, if any.
    pub fn client_id(&self) -> (r: Option<ClientId>)
        ensures
            r == self@.client_id,
    {
        self.failure.client_id
    }

    /// The client hint of the original request.
    pub fn requested_client_id(&self) -> (r: Option<ClientId>)
        ensures
            r == self@.request.client_id,
    {
        self.failure.request.client_id
    }

    pub fn bar_type(&self) -> (r: BarType)
        ensures
            r == self@.request.bar_type,
    {
        self.failure.request.bar_type
    }

    /// The requested start, in nanoseconds since the UNIX epoch (negative before it).
    pub fn start(&self) -> (r: Option<i128>)
        ensures
            r == self@.request.start,
    {
        self.failure.request.start
    }

    /// The requested end, in nanoseconds since the UNIX epoch (negative before it).
    pub fn end(&self) -> (r: Option<i128>)
        ensures
            r == self@.request.end,
    {
        self.failure.request.end
    }

    pub fn limit(&self) -> (r: Option<usize>)
        ensures
            r == self@.request.limit,
    {
        self.failure.request.limit
    }

    /// When the original request was created.
    pub fn request_ts_init(&self) -> (r: u64)
        ensures
            r == self@.request.ts_init,
    {
        self.failure.request.ts_init
    }

    /// When the failure was created.
    pub fn ts_init(&self) -> (r: u64)
        ensures
            r == self@.ts_init,
    {
        self.failure.ts_init
    }

    pub fn error(&self) -> (r: String)
        ensures
            r@ == self@.error,
    {
        self.failure.error.clone()
    }

    /// A copy of the explicitly named aggregate targets.
    pub fn aggregate_bar_types(&self) -> (r: Vec<BarType>)
        ensures
            r@ == self@.aggregate_bar_types,
    {
        clone_bar_types(&self.failure.aggregate_bar_types)
    }

    /// A copy of the original request parameters.
    pub fn params(&self) -> (r: Option<Params>)
        ensures
            params_view(r) == self@.request.params,
    {
        clone_params(&self.failure.request.params)
    }
}

/// A view of a historical bars response.
pub struct PyHistoricalBarsResponse {
    response: Arc<BarsResponse>,
}

impl View for PyHistoricalBarsResponse {
    type V = BarsResponseView;

    closed spec fn view(&self) -> BarsResponseView {
        self.response@
    }
}

impl From<BarsResponse> for PyHistoricalBarsResponse {
    fn from(response: BarsResponse) -> (r: Self)
        ensures
            r@ == response@,
    {
        PyHistoricalBarsResponse { response: Arc::new(response) }
    }
}

impl vstd::std_specs::convert::FromSpecImpl<BarsResponse> for PyHistoricalBarsResponse {
    open spec fn obeys_from_spec() -> bool {
        true
    }

    closed spec fn from_spec(v: BarsResponse) -> Self {
        PyHistoricalBarsResponse { response: Arc::new(v) }
    }
}

impl Clone for PyHistoricalBarsResponse {
    fn clone(&self) -> (r: Self)
        ensures
            r@ == self@,
    {
        PyHistoricalBarsResponse { response: share(&self.response) }
    }
}

impl PyHistoricalBarsResponse {
    pub fn correlation_id(&self) -> (r: UUID4)
        ensures
            r == self@.correlation_id,
    {
        self.response.correlation_id
    }

    pub fn client_id(&self) -> (r: ClientId)
        ensures
            r == self@.client_id,
    {
        self.response.client_id
    }

    pub fn bar_type(&self) -> (r: BarType)
        ensures
            r == self@.bar_type,
    {
        self.response.bar_type
    }

    pub fn start(&self) -> (r: Option<u64>)
        ensures
            r == self@.start,
    {
        self.response.start
    }

    pub fn end(&self) -> (r: Option<u64>)
        ensures
            r == self@.end,
    {
        self.response.end
    }

    pub fn ts_init(&self) -> (r: u64)
        ensures
            r == self@.ts_init,
    {
        self.response.ts_init
    }

    /// A view of the engine-authored outcome, sharing this response, when there is one.
    pub fn historical_outcome(&self) -> (r: Option<PyHistoricalBarsOutcome>)
        ensures
            r is Some <==> self@.historical_outcome is Some,
            r matches Some(o) ==> o@ == self@,
    {
        match &self.response.historical_outcome {
            Some(_) => Some(PyHistoricalBarsOutcome { response: share(&self.response) }),
            None => None,
        }
    }

    /// A copy of the request parameters.
    pub fn params(&self) -> (r: Option<Params>)
        ensures
            params_view(r) == self@.params,
    {
        clone_params(&self.response.params)
    }

    /// A copy of the bars.
    pub fn bars(&self) -> (r: Vec<Bar>)
        ensures
            r@ == self@.data,
    {
        clone_bars(&self.response.data)
    }
}

/// The target bar types that an outcome names: those of its batches when it validated, the
/// listed ones when it failed, none without an outcome.
pub open spec fn outcome_bar_types(o: Option<HistoricalBarsOutcomeView>) -> Seq<BarType> {
    match o {
        Some(HistoricalBarsOutcomeView::Validated { aggregates }) => aggregates.map_values(
            |b: (BarType, Seq<Bar>)| b.0,
        ),
        Some(HistoricalBarsOutcomeView::Failed { aggregate_bar_types, .. }) => aggregate_bar_types,
        None => Seq::empty(),
    }
}

/// The batch at `index` of a validated outcome.
pub open spec fn outcome_batch(o: Option<HistoricalBarsOutcomeView>, index: int) -> Option<
    (BarType, Seq<Bar>),
> {
    match o {
        Some(HistoricalBarsOutcomeView::Validated { aggregates }) => if 0 <= index
            < aggregates.len() {
            Some(aggregates[index])
        } else {
            None
        },
        _ => None,
    }
}

/// A view of the outcome of a historical bars response; it shares the response.
pub struct PyHistoricalBarsOutcome {
    response: Arc<BarsResponse>,
}

impl View for PyHistoricalBarsOutcome {
    type V = BarsResponseView;

    closed spec fn view(&self) -> BarsResponseView {
        self.response@
    }
}

impl Clone for PyHistoricalBarsOutcome {
    fn clone(&self) -> (r: Self)
        ensures
            r@ == self@,
    {
        PyHistoricalBarsOutcome { response: share(&self.response) }
    }
}

impl PyHistoricalBarsOutcome {
    pub fn is_validated(&self) -> (r: bool)
        ensures
            r <==> self@.historical_outcome matches Some(HistoricalBarsOutcomeView::Validated { .. }),
    {
        match &self.response.historical_outcome {
            Some(HistoricalBarsOutcome::Validated { .. }) => true,
            _ => false,
        }
    }

    /// The failure diagnostic, when the outcome failed.
    pub fn error(&self) -> (r: Option<String>)
        ensures
            match self@.historical_outcome {
                Some(HistoricalBarsOutcomeView::Failed { error, .. }) => r matches Some(e) && e@
                    == error,
                _ => r is None,
            },
    {
        match &self.response.historical_outcome {
            Some(HistoricalBarsOutcome::Failed { error, .. }) => Some(error.clone()),
            _ => None,
        }
    }

    /// The named targets, in target order.
    pub fn aggregate_bar_types(&self) -> (r: Vec<BarType>)
        ensures
            r@ == outcome_bar_types(self@.historical_outcome),
    {
        match &self.response.historical_outcome {
            Some(HistoricalBarsOutcome::Validated { aggregates }) => {
                let mut r: Vec<BarType> = Vec::new();
                for i in 0..aggregates.len()
                    invariant
                        r@ =~= aggregates@.subrange(0, i as int).map_values(
                            |b: HistoricalBarsBatch| b.bar_type,
                        ),
                {
                    r.push(aggregates[i].bar_type);
                }
                proof {
                    assert(aggregates@.subrange(0, aggregates@.len() as int) =~= aggregates@);
                    assert(r@ =~= outcome_bar_types(self@.historical_outcome));
                }
                r
            },
            Some(HistoricalBarsOutcome::Failed { aggregate_bar_types, .. }) => clone_bar_types(
                aggregate_bar_types,
            ),
            None => Vec::new(),
        }
    }

    /// One batch view per batch of a validated outcome, in target order; none otherwise.
    pub fn aggregates(&self) -> (r: Vec<PyHistoricalBarsBatch>)
        ensures
            r@.len() == match self@.historical_outcome {
                Some(HistoricalBarsOutcomeView::Validated { aggregates }) => aggregates.len(),
                _ => 0,
            },
            forall|i: int|
                0 <= i < r@.len() ==> #[trigger] r@[i]@ == (self@, i as usize) && outcome_batch(
                    self@.historical_outcome,
                    i,
                ) is Some,
    {
        match &self.response.historical_outcome {
            Some(HistoricalBarsOutcome::Validated { aggregates }) => {
                let mut r: Vec<PyHistoricalBarsBatch> = Vec::new();
                for index in 0..aggregates.len()
                    invariant
                        r@.len() == index,
                        index <= aggregates@.len(),
                        self.response.historical_outcome == Some(
                            HistoricalBarsOutcome::Validated { aggregates: *aggregates },
                        ),
                        forall|i: int| 0 <= i < index ==> #[trigger] r@[i]@ == (self@, i as usize),
                {
                    r.push(PyHistoricalBarsBatch { response: share(&self.response), index });
                }
                r
            },
            _ => Vec::new(),
        }
    }
}

/// A view of one batch of a validated outcome; it shares the response.
pub struct PyHistoricalBarsBatch {
    response: Arc<BarsResponse>,
    index: usize,
}

impl View for PyHistoricalBarsBatch {
    type V = (BarsResponseView, usize);

    closed spec fn view(&self) -> (BarsResponseView, usize) {
        (self.response@, self.index)
    }
}

impl Clone for PyHistoricalBarsBatch {
    fn clone(&self) -> (r: Self)
        ensures
            r@ == self@,
    {
        PyHistoricalBarsBatch { response: share(&self.response), index: self.index }
    }
}

/// The diagnostic of a batch view whose batch is not in its response.
pub open spec fn foreign_batch_text() -> Seq<char> {
    "Historical bar batch does not belong to its response"@
}

impl PyHistoricalBarsBatch {
    fn payload(&self) -> (r: Result<&HistoricalBarsBatch, String>)
        ensures
            match outcome_batch(self@.0.historical_outcome, self@.1 as int) {
                Some(b) => r matches Ok(p) && p@ == b,
                None => r matches Err(e) && e@ == foreign_batch_text(),
            },
    {
        match &self.response.historical_outcome {
            Some(HistoricalBarsOutcome::Validated { aggregates }) => {
                if self.index < aggregates.len() {
                    return Ok(&aggregates[self.index]);
                }
            },
            _ => {},
        }
        Err(String::from_str("Historical bar batch does not belong to its response"))
    }

    /// The target bar type of the batch.
    pub fn bar_type(&self) -> (r: Result<BarType, String>)
        ensures
            match outcome_batch(self@.0.historical_outcome, self@.1 as int) {
                Some(b) => r == Ok::<BarType, String>(b.0),
                None => r matches Err(e) && e@ == foreign_batch_text(),
            },
    {
        let batch = self.payload()?;
        Ok(batch.bar_type)
    }

    /// A copy of the bars of the batch.
    pub fn bars(&self) -> (r: Result<Vec<Bar>, String>)
        ensures
            match outcome_batch(self@.0.historical_outcome, self@.1 as int) {
                Some(b) => r matches Ok(v) && v@ == b.1,
                None => r matches Err(e) && e@ == foreign_batch_text(),
            },
    {
        let batch = self.payload()?;
        Ok(clone_bars(&batch.data))
    }
}

} // verus!
