//! Immutable source identity and coverage captured before dispatch, and the check of a raw
//! page against it.
//!
//! Validation reads a complete page without changing it. Response headers and parameters cannot
//! redefine the original source, coverage or record bound.

use vstd::prelude::*;

use crate::error::SourceError;
use crate::messages::{
    clone_params, params_view, ParamValueView, Params, RequestBarAggregation, RequestBars,
    RequestBarsView, RequestScope,
};
use crate::model::{AggregationSource, Bar, BarAggregation, BarType, ClientId, PriceType, UUID4};
use crate::outputs::HistoricalBarOutputs;
use crate::response::{BarsResponse, BarsResponseView};
use crate::time::{
    canonical_close, canonical_close_ns, close_count, close_window, first_close, is_close_time,
    last_close, lemma_window_grid, spec_close_window, NANOSECONDS_IN_MINUTE,
};

verus! {

/// Standard 1-MINUTE-LAST bars aggregated by the venue.
pub open spec fn supported_source(bar_type: BarType) -> bool {
    &&& bar_type.spec_is_standard()
    &&& bar_type.spec_is_externally_aggregated()
    &&& bar_type.spec_spec().step == 1
    &&& bar_type.spec_spec().aggregation == BarAggregation::Minute
    &&& bar_type.spec_spec().price_type == PriceType::Last
}

/// A signed UTC nanosecond instant as UNIX nanoseconds, when it is representable.
pub open spec fn unix_nanos(ns: i128) -> Option<u64> {
    if 0 <= ns <= u64::MAX {
        Some(ns as u64)
    } else {
        None
    }
}

/// The exact UTC coverage of an admitted source.
pub struct Coverage {
    pub start_ns: u64,
    pub end_ns: u64,
    pub first_close_ns: u64,
    pub last_close_ns: u64,
    pub expected_count: usize,
    pub limit: usize,
}

/// Admission of a request as a historical source: its coverage on the closed-minute grid, or
/// the first reason it cannot be admitted. A pipeline child may cover no closed minute.
pub open spec fn spec_coverage(r: RequestBarsView, allow_empty: bool) -> Result<
    Coverage,
    SourceError,
> {
    if !supported_source(r.bar_type) {
        Err(SourceError::UnsupportedSource)
    } else if r.start is None {
        Err(SourceError::MissingStart)
    } else if unix_nanos(r.start->0) is None {
        Err(SourceError::StartOutOfRange)
    } else if r.end is None {
        Err(SourceError::MissingEnd)
    } else if unix_nanos(r.end->0) is None {
        Err(SourceError::EndOutOfRange)
    } else if r.start->0 > r.end->0 {
        Err(SourceError::StartExceedsEnd)
    } else if r.limit is None {
        Err(SourceError::MissingLimit)
    } else {
        let start = r.start->0 as u64;
        let end = r.end->0 as u64;
        match spec_close_window(start as int, end as int) {
            Err(e) => Err(e),
            Ok((f, l)) => if !allow_empty && f > l {
                Err(SourceError::NoClosedMinute)
            } else if close_count(f as int, l as int) > usize::MAX {
                Err(SourceError::CountOverflows)
            } else if close_count(f as int, l as int) > r.limit->0 {
                Err(SourceError::CoverageExceedsLimit)
            } else {
                Ok(
                    Coverage {
                        start_ns: start,
                        end_ns: end,
                        first_close_ns: f,
                        last_close_ns: l,
                        expected_count: close_count(f as int, l as int) as usize,
                        limit: r.limit->0,
                    },
                )
            },
        }
    }
}

/// Immutable source identity and coverage captured before dispatching the original request.
#[derive(Debug)]
pub struct HistoricalBarSource {
    pub request_id: UUID4,
    pub client_id: ClientId,
    pub bar_type: BarType,
    pub start_ns: u64,
    pub end_ns: u64,
    pub parent_request_id: Option<UUID4>,
    pub params: Option<Params>,
    pub scope: Option<RequestScope>,
    pub first_close_ns: u64,
    pub last_close_ns: u64,
    pub expected_count: usize,
    pub output_limit: usize,
    pub aggregation: Option<RequestBarAggregation>,
    pub outputs: HistoricalBarOutputs,
}

/// The first reason a bar's prices or volume are unusable, if any.
pub open spec fn ohlcv_error(bar: Bar, index: usize) -> Option<SourceError> {
    let prices_valid = {
        &&& bar.open.spec_is_positive() && !bar.open.spec_is_undefined()
            && !bar.open.spec_is_error()
        &&& bar.high.spec_is_positive() && !bar.high.spec_is_undefined()
            && !bar.high.spec_is_error()
        &&& bar.low.spec_is_positive() && !bar.low.spec_is_undefined() && !bar.low.spec_is_error()
        &&& bar.close.spec_is_positive() && !bar.close.spec_is_undefined()
            && !bar.close.spec_is_error()
    };
    if !(prices_valid && !bar.volume.spec_is_undefined()) {
        Some(SourceError::InvalidPriceOrVolume { index })
    } else if !(bar.high.raw >= bar.open.raw && bar.high.raw >= bar.low.raw && bar.high.raw
        >= bar.close.raw && bar.low.raw <= bar.open.raw && bar.low.raw <= bar.close.raw) {
        Some(SourceError::InvalidOhlcBounds { index })
    } else {
        None
    }
}

/// The bar's high and low bound both its open and its close.
pub open spec fn bounds_open_and_close(bar: Bar) -> bool {
    &&& bar.low.raw <= bar.open.raw <= bar.high.raw
    &&& bar.low.raw <= bar.close.raw <= bar.high.raw
}

/// A standard bar type of one-minute last-price bars aggregated by the venue.
pub open spec fn is_external_minute_last(bar_type: BarType) -> bool {
    bar_type matches BarType::Standard { spec, aggregation_source, .. } && {
        &&& aggregation_source == AggregationSource::External
        &&& spec.step == 1
        &&& spec.aggregation == BarAggregation::Minute
        &&& spec.price_type == PriceType::Last
    }
}

/// The close time of a bar stamp, or zero when it has none.
pub open spec fn close_of(timestamp: u64) -> u64 {
    match canonical_close(timestamp as int) {
        Ok(c) => c,
        Err(_) => 0,
    }
}

impl HistoricalBarSource {
    /// The coverage fields agree with the exact UTC grid of `[start_ns, end_ns]`.
    pub open spec fn wf(&self) -> bool {
        &&& self.first_close_ns == first_close(self.start_ns as int)
        &&& self.last_close_ns == last_close(self.end_ns as int)
        &&& self.expected_count == close_count(
            self.first_close_ns as int,
            self.last_close_ns as int,
        )
        &&& self.outputs@.wf()
    }

    /// The first reason the header of `response` does not belong to this source.
    pub open spec fn header_error(&self, response: BarsResponseView, complete: bool) -> Option<
        SourceError,
    > {
        if response.correlation_id != self.request_id {
            Some(SourceError::RequestIdMismatch)
        } else if response.client_id != self.client_id {
            Some(SourceError::ClientIdMismatch)
        } else if response.bar_type != self.bar_type {
            Some(SourceError::BarTypeMismatch)
        } else if response.data.len() > self.expected_count {
            Some(SourceError::ExceedsCoverage)
        } else if complete && response.data.len() != self.expected_count {
            Some(SourceError::IncompleteCoverage)
        } else {
            None
        }
    }

    /// The first reason row `i` is refused, given that the rows before it passed.
    pub open spec fn row_error(&self, data: Seq<Bar>, complete: bool, i: int) -> Option<
        SourceError,
    > {
        let bar = data[i];
        if bar.bar_type != self.bar_type {
            Some(SourceError::RowBarTypeMismatch { index: i as usize })
        } else if ohlcv_error(bar, i as usize) is Some {
            ohlcv_error(bar, i as usize)
        } else {
            match canonical_close(bar.ts_event as int) {
                Err(e) => Some(e),
                Ok(c) => if !(self.first_close_ns <= c <= self.last_close_ns) {
                    Some(SourceError::OutsideCoverage { index: i as usize })
                } else if i > 0 && c <= close_of(data[i - 1].ts_event) {
                    Some(SourceError::DuplicateOrOutOfOrder { index: i as usize })
                } else if complete && c != self.first_close_ns + i * NANOSECONDS_IN_MINUTE {
                    Some(SourceError::Gap { index: i as usize })
                } else {
                    None
                },
            }
        }
    }

    /// The first refused row among the first `n` rows.
    pub open spec fn first_row_error(&self, data: Seq<Bar>, complete: bool, n: nat) -> Option<
        SourceError,
    >
        decreases n,
    {
        if n == 0 {
            None
        } else {
            match self.first_row_error(data, complete, (n - 1) as nat) {
                Some(e) => Some(e),
                None => self.row_error(data, complete, n - 1),
            }
        }
    }

    /// The outcome of checking `response` against this source.
    pub open spec fn validation(&self, response: BarsResponseView, complete: bool) -> Result<
        (),
        SourceError,
    > {
        match self.header_error(response, complete) {
            Some(e) => Err(e),
            None => match self.first_row_error(response.data, complete, response.data.len()) {
                Some(e) => Err(e),
                None => Ok(()),
            },
        }
    }

    /// Captures exact UTC source coverage, bounded by the original request's explicit limit.
    pub fn new(request: &RequestBars, client_id: ClientId) -> (res: Result<Self, SourceError>)
        ensures
            Self::admitted(request@, client_id, false, res),
            res matches Ok(s) ==> is_external_minute_last(s.bar_type),
    {
        Self::from_request(request, client_id, false)
    }

    /// Captures the coverage of a pipeline child, which may cover no closed minute.
    pub fn for_child(request: &RequestBars, client_id: ClientId) -> (res: Result<
        Self,
        SourceError,
    >)
        ensures
            Self::admitted(request@, client_id, true, res),
            res matches Ok(s) ==> is_external_minute_last(s.bar_type),
    {
        Self::from_request(request, client_id, true)
    }

    /// `res` is the admission of `request`: its exact coverage and identity, or the first
    /// reason it is refused.
    pub open spec fn admitted(
        request: RequestBarsView,
        client_id: ClientId,
        allow_empty: bool,
        res: Result<Self, SourceError>,
    ) -> bool {
        match spec_coverage(request, allow_empty) {
            Err(e) => res == Err::<Self, SourceError>(e),
            Ok(c) => res matches Ok(s) && {
                &&& s.request_id == request.request_id
                &&& s.client_id == client_id
                &&& s.bar_type == request.bar_type
                &&& s.start_ns == c.start_ns
                &&& s.end_ns == c.end_ns
                &&& s.parent_request_id is None
                &&& params_view(s.params) == request.params
                &&& s.scope == request.scope
                &&& s.first_close_ns == c.first_close_ns
                &&& s.last_close_ns == c.last_close_ns
                &&& s.expected_count == c.expected_count
                &&& s.output_limit == c.limit
                &&& s.aggregation is None
                &&& s.outputs@.batches.len() == 0
                &&& s.outputs@.max_per_target == c.limit
                &&& s.outputs@.error is None
                &&& !s.outputs@.closed
                &&& s.wf()
            },
        }
    }

    fn from_request(request: &RequestBars, client_id: ClientId, allow_empty: bool) -> (res: Result<
        Self,
        SourceError,
    >)
        ensures
            Self::admitted(request@, client_id, allow_empty, res),
            res matches Ok(s) ==> is_external_minute_last(s.bar_type),
    {
        let spec = request.bar_type.spec();
        if !(request.bar_type.is_standard() && request.bar_type.is_externally_aggregated()
            && spec.step == 1 && spec.aggregation == BarAggregation::Minute && spec.price_type
            == PriceType::Last) {
            return Err(SourceError::UnsupportedSource);
        }
        let start = match request.start {
            Some(s) => s,
            None => return Err(SourceError::MissingStart),
        };
        if start < 0 || start > 18446744073709551615i128 {
            return Err(SourceError::StartOutOfRange);
        }
        let end = match request.end {
            Some(e) => e,
            None => return Err(SourceError::MissingEnd),
        };
        if end < 0 || end > 18446744073709551615i128 {
            return Err(SourceError::EndOutOfRange);
        }
        let start_ns = start as u64;
        let end_ns = end as u64;
        if start_ns > end_ns {
            return Err(SourceError::StartExceedsEnd);
        }
        let limit = match request.limit {
            Some(l) => l,
            None => return Err(SourceError::MissingLimit),
        };
        let (first_close_ns, last_close_ns) = match close_window(start_ns, end_ns) {
            Ok(w) => w,
            Err(e) => return Err(e),
        };
        if !(allow_empty || first_close_ns <= last_close_ns) {
            return Err(SourceError::NoClosedMinute);
        }
        let expected_count: usize = if first_close_ns <= last_close_ns {
            let minutes = (last_close_ns - first_close_ns) / NANOSECONDS_IN_MINUTE;
            if minutes > usize::MAX as u64 {
                return Err(SourceError::CountOverflows);
            }
            match (minutes as usize).checked_add(1) {
                Some(c) => c,
                None => return Err(SourceError::CountOverflows),
            }
        } else {
            0
        };
        if expected_count > limit {
            return Err(SourceError::CoverageExceedsLimit);
        }
        let outputs = match HistoricalBarOutputs::new(None, limit) {
            Ok(o) => o,
            Err(e) => return Err(e),
        };
        Ok(
            HistoricalBarSource {
                request_id: request.request_id,
                client_id,
                bar_type: request.bar_type,
                start_ns,
                end_ns,
                parent_request_id: None,
                params: clone_params(&request.params),
                scope: request.scope,
                aggregation: None,
                output_limit: limit,
                outputs,
                first_close_ns,
                last_close_ns,
                expected_count,
            },
        )
    }
}

/// Checks that a bar's prices are positive and defined, its volume defined, and its
/// high and low bound the open and close.
pub fn validate_ohlcv(bar: &Bar, index: usize) -> (res: Result<(), SourceError>)
    ensures
        res == (match ohlcv_error(*bar, index) {
            Some(e) => Err(e),
            None => Ok(()),
        }),
        res is Ok ==> bounds_open_and_close(*bar),
{
    let prices_valid = bar.open.is_positive() && !bar.open.is_undefined() && !bar.open.is_error()
        && bar.high.is_positive() && !bar.high.is_undefined() && !bar.high.is_error()
        && bar.low.is_positive() && !bar.low.is_undefined() && !bar.low.is_error()
        && bar.close.is_positive() && !bar.close.is_undefined() && !bar.close.is_error();
    if !(prices_valid && !bar.volume.is_undefined()) {
        return Err(SourceError::InvalidPriceOrVolume { index });
    }
    if !(bar.high.raw >= bar.open.raw && bar.high.raw >= bar.low.raw && bar.high.raw
        >= bar.close.raw && bar.low.raw <= bar.open.raw && bar.low.raw <= bar.close.raw) {
        return Err(SourceError::InvalidOhlcBounds { index });
    }
    Ok(())
}

impl HistoricalBarSource {
    /// Once a row among the first `n` is refused, the first refusal stays the same.
    pub proof fn lemma_first_row_error_stable(&self, data: Seq<Bar>, complete: bool, n: nat, m: nat)
        requires
            n <= m,
            self.first_row_error(data, complete, n) is Some,
        ensures
            self.first_row_error(data, complete, m) == self.first_row_error(data, complete, n),
        decreases m - n,
    {
        if n < m {
            self.lemma_first_row_error_stable(data, complete, n, (m - 1) as nat);
        }
    }

    /// Checks an entire raw page before any downstream mutation.
    ///
    /// `complete` is false only for trusted pipeline legs, which are staged and checked again
    /// against their complete parent. Echoed response bounds and counts are not read.
    pub fn validate(&self, response: &BarsResponse, complete: bool) -> (res: Result<
        (),
        SourceError,
    >)
        requires
            self.wf(),
        ensures
            res == self.validation(response@, complete),
            res is Ok ==> forall|i: int|
                0 <= i < response.data@.len() ==> bounds_open_and_close(#[trigger] response.data@[i]),
    {
        proof {
            self.law_accepted_bars_are_bounded(response@, complete);
        }
        if response.correlation_id != self.request_id {
            return Err(SourceError::RequestIdMismatch);
        }
        if response.client_id != self.client_id {
            return Err(SourceError::ClientIdMismatch);
        }
        if response.bar_type != self.bar_type {
            return Err(SourceError::BarTypeMismatch);
        }
        if response.data.len() > self.expected_count {
            return Err(SourceError::ExceedsCoverage);
        }
        if complete && response.data.len() != self.expected_count {
            return Err(SourceError::IncompleteCoverage);
        }
        let ghost data = response.data@;
        let mut previous_close: Option<u64> = None;
        for index in 0..response.data.len()
            invariant
                self.wf(),
                data == response.data@,
                data.len() <= self.expected_count,
                self.header_error(response@, complete) is None,
                self.first_row_error(data, complete, index as nat) is None,
                index == 0 ==> previous_close is None,
                index > 0 ==> previous_close == Some(close_of(data[index - 1].ts_event)),
        {
            let bar = &response.data[index];
            proof {
                assert(self.first_row_error(data, complete, (index + 1) as nat) == self.row_error(
                    data,
                    complete,
                    index as int,
                ));
                // A refused row is the first refusal of the whole page.
                if self.row_error(data, complete, index as int) is Some {
                    self.lemma_first_row_error_stable(data, complete, (index + 1) as nat, data.len());
                }
            }
            if bar.bar_type != self.bar_type {
                return Err(SourceError::RowBarTypeMismatch { index });
            }
            match validate_ohlcv(bar, index) {
                Ok(()) => {},
                Err(e) => {
                    return Err(e);
                },
            }
            let close_ns = match canonical_close_ns(bar.ts_event) {
                Ok(c) => c,
                Err(e) => {
                    return Err(e);
                },
            };
            if !(close_ns >= self.first_close_ns && close_ns <= self.last_close_ns) {
                return Err(SourceError::OutsideCoverage { index });
            }
            if let Some(previous) = previous_close {
                if !(close_ns > previous) {
                    return Err(SourceError::DuplicateOrOutOfOrder { index });
                }
            }
            if complete {
                proof {
                    let m = NANOSECONDS_IN_MINUTE as int;
                    let span = self.last_close_ns - self.first_close_ns;
                    assert(self.first_close_ns <= self.last_close_ns);
                    assert(index <= span / m);
                    vstd::arithmetic::div_mod::lemma_fundamental_div_mod(span, m);
                    vstd::arithmetic::div_mod::lemma_mod_pos_bound(span, m);
                    assert(index * m <= span) by (nonlinear_arith)
                        requires
                            index <= span / m,
                            span == m * (span / m) + span % m,
                            0 <= span % m,
                            m > 0,
                    ;
                }
                let offset = (index as u64) * NANOSECONDS_IN_MINUTE;
                if close_ns != self.first_close_ns + offset {
                    proof {
                        self.lemma_first_row_error_stable(
                            data,
                            complete,
                            (index + 1) as nat,
                            data.len(),
                        );
                    }
                    return Err(SourceError::Gap { index });
                }
            }
            previous_close = Some(close_ns);
        }
        Ok(())
    }
}

/// Row `i` of a complete page sits on its grid slot with usable prices: the row a complete
/// source must hold there.
pub open spec fn grid_row(source: &HistoricalBarSource, data: Seq<Bar>, i: int) -> bool {
    &&& data[i].bar_type == source.bar_type
    &&& ohlcv_error(data[i], i as usize) is None
    &&& canonical_close(data[i].ts_event as int) == Ok::<u64, SourceError>(
        (source.first_close_ns + i * NANOSECONDS_IN_MINUTE) as u64,
    )
}

impl HistoricalBarSource {
    proof fn lemma_no_row_error(&self, data: Seq<Bar>, complete: bool, n: nat)
        ensures
            self.first_row_error(data, complete, n) is None <==> forall|i: int|
                0 <= i < n ==> #[trigger] self.row_error(data, complete, i) is None,
        decreases n,
    {
        if n > 0 {
            self.lemma_no_row_error(data, complete, (n - 1) as nat);
        }
    }

    /// Only standard one-minute last-price bars aggregated by the venue are admitted as a source.
    pub proof fn law_admitted_sources_are_external_minutes(
        request: RequestBarsView,
        client_id: ClientId,
        allow_empty: bool,
        res: Result<Self, SourceError>,
    )
        requires
            Self::admitted(request, client_id, allow_empty, res),
        ensures
            res matches Ok(s) ==> is_external_minute_last(s.bar_type) && s.bar_type == request.bar_type,
    {
    }

    /// Every bar of an accepted page has a high and a low that bound its open and its close.
    pub proof fn law_accepted_bars_are_bounded(&self, response: BarsResponseView, complete: bool)
        ensures
            self.validation(response, complete) is Ok ==> forall|i: int|
                0 <= i < response.data.len() ==> bounds_open_and_close(#[trigger] response.data[i]),
    {
        self.lemma_no_row_error(response.data, complete, response.data.len());
        if self.validation(response, complete) is Ok {
            assert forall|i: int| 0 <= i < response.data.len() implies bounds_open_and_close(
                #[trigger] response.data[i],
            ) by {
                assert(self.row_error(response.data, complete, i) is None);
            }
        }
    }

    /// A complete page passes exactly when it carries the original identity and holds one bar
    /// with usable prices on every closed minute of the original coverage, in order, and
    /// nothing else.
    pub proof fn law_complete_page_is_exact_grid(&self, response: BarsResponseView)
        requires
            self.wf(),
        ensures
            self.validation(response, true) is Ok <==> {
                &&& response.correlation_id == self.request_id
                &&& response.client_id == self.client_id
                &&& response.bar_type == self.bar_type
                &&& response.data.len() == self.expected_count
                &&& forall|i: int|
                    0 <= i < response.data.len() ==> #[trigger] grid_row(self, response.data, i)
            },
    {
        let data = response.data;
        let m = NANOSECONDS_IN_MINUTE as int;
        self.lemma_no_row_error(data, true, data.len());
        if self.header_error(response, true) is None {
            if data.len() > 0 {
                assert(self.first_close_ns <= self.last_close_ns);
            }
            assert forall|i: int| 0 <= i < data.len() implies (self.row_error(data, true, i) is None
                ==> #[trigger] grid_row(self, data, i)) && (grid_row(self, data, i) && (i == 0
                || grid_row(self, data, i - 1)) ==> self.row_error(data, true, i) is None) by {
                let span = self.last_close_ns - self.first_close_ns;
                vstd::arithmetic::div_mod::lemma_fundamental_div_mod(span, m);
                vstd::arithmetic::div_mod::lemma_mod_pos_bound(span, m);
                assert(i * m <= span) by (nonlinear_arith)
                    requires
                        0 <= i <= span / m,
                        span == m * (span / m) + span % m,
                        0 <= span % m,
                        m > 0,
                ;
                if i > 0 && grid_row(self, data, i - 1) {
                    assert(close_of(data[i - 1].ts_event) == self.first_close_ns + (i - 1) * m);
                }
            }
            if forall|i: int| 0 <= i < data.len() ==> #[trigger] grid_row(self, data, i) {
                assert forall|i: int| 0 <= i < data.len() implies #[trigger] self.row_error(
                    data,
                    true,
                    i,
                ) is None by {
                    assert(grid_row(self, data, i));
                    if i > 0 {
                        assert(grid_row(self, data, i - 1));
                    }
                }
            }
        }
    }

    /// An accepted page, complete or not, holds close times strictly increasing on the
    /// closed-minute grid inside the original UTC window.
    pub proof fn law_accepted_page_is_ordered_inside_window(
        &self,
        response: BarsResponseView,
        complete: bool,
    )
        requires
            self.wf(),
            self.validation(response, complete) is Ok,
        ensures
            forall|i: int|
                0 <= i < response.data.len() ==> {
                    let c = close_of(#[trigger] response.data[i].ts_event);
                    &&& canonical_close(response.data[i].ts_event as int) is Ok
                    &&& is_close_time(c as int)
                    &&& self.start_ns <= c <= self.end_ns
                },
            forall|i: int, j: int|
                0 <= i < j < response.data.len() ==> close_of(response.data[i].ts_event) < close_of(
                    response.data[j].ts_event,
                ),
            response.data.len() <= self.expected_count,
    {
        let data = response.data;
        self.lemma_no_row_error(data, complete, data.len());
        assert forall|i: int| 0 <= i < data.len() implies {
            let c = close_of(#[trigger] data[i].ts_event);
            &&& canonical_close(data[i].ts_event as int) is Ok
            &&& is_close_time(c as int)
            &&& self.start_ns <= c <= self.end_ns
        } by {
            assert(self.row_error(data, complete, i) is None);
            let c = close_of(data[i].ts_event);
            lemma_window_grid(self.start_ns as int, self.end_ns as int, c as int);
            vstd::arithmetic::div_mod::lemma_fundamental_div_mod(
                c - self.first_close_ns,
                NANOSECONDS_IN_MINUTE as int,
            );
            lemma_window_grid(self.start_ns as int, self.end_ns as int, self.first_close_ns as int);
            assert((c as int + crate::time::NANOSECONDS_IN_MILLISECOND) % (
            NANOSECONDS_IN_MINUTE as int) == 0);
        }
        assert forall|i: int, j: int| 0 <= i < j < data.len() implies close_of(data[i].ts_event)
            < close_of(data[j].ts_event) by {
            self.lemma_increasing(data, complete, i, j);
        }
    }

    proof fn lemma_increasing(&self, data: Seq<Bar>, complete: bool, i: int, j: int)
        requires
            0 <= i < j < data.len(),
            forall|k: int| 0 <= k < data.len() ==> #[trigger] self.row_error(data, complete, k)
                is None,
        ensures
            close_of(data[i].ts_event) < close_of(data[j].ts_event),
        decreases j - i,
    {
        assert(self.row_error(data, complete, j) is None);
        if j > i + 1 {
            self.lemma_increasing(data, complete, i, j - 1);
        }
    }

    /// A page accepted as complete is also accepted as a partial pipeline leg.
    pub proof fn law_complete_acceptance_implies_partial(&self, response: BarsResponseView)
        requires
            self.wf(),
            self.validation(response, true) is Ok,
        ensures
            self.validation(response, false) is Ok,
    {
        self.lemma_no_row_error(response.data, true, response.data.len());
        self.lemma_no_row_error(response.data, false, response.data.len());
        assert forall|i: int| 0 <= i < response.data.len() implies #[trigger] self.row_error(
            response.data,
            false,
            i,
        ) is None by {
            assert(self.row_error(response.data, true, i) is None);
        }
    }

    /// Echoed bounds, parameters, receipt time and outcome of a page cannot change its check.
    pub proof fn law_echo_is_ignored(
        &self,
        a: BarsResponseView,
        b: BarsResponseView,
        complete: bool,
    )
        requires
            a.correlation_id == b.correlation_id,
            a.client_id == b.client_id,
            a.bar_type == b.bar_type,
            a.data == b.data,
        ensures
            self.validation(a, complete) == self.validation(b, complete),
    {
    }
}

} // verus!
