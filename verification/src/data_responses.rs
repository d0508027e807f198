//! Responses to non-bar data requests: each carries the request it answers, the client that
//! answered, the requested window and the payload, whose type the caller chooses.

use std::sync::Arc;

use vstd::prelude::*;

use crate::messages::Params;
use crate::model::{ClientId, InstrumentId, OptionSeriesId, Price, Venue, UUID4};

verus! {

/// A response carrying custom data, described by `data_type`, behind a shared pointer.
#[derive(Clone, Debug)]
pub struct CustomDataResponse<K, D> {
    pub correlation_id: UUID4,
    pub client_id: ClientId,
    pub venue: Option<Venue>,
    pub data_type: K,
    pub data: Arc<D>,
    pub start: Option<u64>,
    pub end: Option<u64>,
    pub ts_init: u64,
    pub params: Option<Params>,
}

impl<K, D> CustomDataResponse<K, D> {
    /// Creates a new [`CustomDataResponse`], moving `data` behind a shared pointer.
    #[allow(clippy::too_many_arguments)]
    pub fn new(
        correlation_id: UUID4,
        client_id: ClientId,
        venue: Option<Venue>,
        data_type: K,
        data: D,
        start: Option<u64>,
        end: Option<u64>,
        ts_init: u64,
        params: Option<Params>,
    ) -> (r: Self)
        ensures
            r.correlation_id == correlation_id,
            r.client_id == client_id,
            r.venue == venue,
            r.data_type == data_type,
            r.data == data,
            r.start == start,
            r.end == end,
            r.ts_init == ts_init,
            r.params == params,
    {
        CustomDataResponse {
            correlation_id,
            client_id,
            venue,
            data_type,
            data: Arc::new(data),
            start,
            end,
            ts_init,
            params,
        }
    }
}

/// A response carrying one instrument definition.
#[derive(Clone, Debug)]
pub struct InstrumentResponse<I> {
    pub correlation_id: UUID4,
    pub client_id: ClientId,
    pub instrument_id: InstrumentId,
    pub data: I,
    pub start: Option<u64>,
    pub end: Option<u64>,
    pub ts_init: u64,
    pub params: Option<Params>,
}

impl<I> InstrumentResponse<I> {
    /// Creates a new [`InstrumentResponse`].
    #[allow(clippy::too_many_arguments)]
    pub fn new(
        correlation_id: UUID4,
        client_id: ClientId,
        instrument_id: InstrumentId,
        data: I,
        start: Option<u64>,
        end: Option<u64>,
        ts_init: u64,
        params: Option<Params>,
    ) -> (r: Self)
        ensures
            r.correlation_id == correlation_id,
            r.client_id == client_id,
            r.instrument_id == instrument_id,
            r.data == data,
            r.start == start,
            r.end == end,
            r.ts_init == ts_init,
            r.params == params,
    {
        InstrumentResponse { correlation_id, client_id, instrument_id, data, start, end, ts_init, params }
    }
}

/// A response carrying the instrument definitions of a venue.
#[derive(Clone, Debug)]
pub struct InstrumentsResponse<I> {
    pub correlation_id: UUID4,
    pub client_id: ClientId,
    pub venue: Venue,
    pub data: Vec<I>,
    pub start: Option<u64>,
    pub end: Option<u64>,
    pub ts_init: u64,
    pub params: Option<Params>,
}

impl<I> InstrumentsResponse<I> {
    /// Creates a new [`InstrumentsResponse`].
    #[allow(clippy::too_many_arguments)]
    pub fn new(
        correlation_id: UUID4,
        client_id: ClientId,
        venue: Venue,
        data: Vec<I>,
        start: Option<u64>,
        end: Option<u64>,
        ts_init: u64,
        params: Option<Params>,
    ) -> (r: Self)
        ensures
            r.correlation_id == correlation_id,
            r.client_id == client_id,
            r.venue == venue,
            r.data == data,
            r.start == start,
            r.end == end,
            r.ts_init == ts_init,
            r.params == params,
    {
        InstrumentsResponse { correlation_id, client_id, venue, data, start, end, ts_init, params }
    }
}

/// A response carrying an order book snapshot.
#[derive(Clone, Debug)]
pub struct BookResponse<B> {
    pub correlation_id: UUID4,
    pub client_id: ClientId,
    pub instrument_id: InstrumentId,
    pub data: B,
    pub start: Option<u64>,
    pub end: Option<u64>,
    pub ts_init: u64,
    pub params: Option<Params>,
}

impl<B> BookResponse<B> {
    /// Creates a new [`BookResponse`].
    #[allow(clippy::too_many_arguments)]
    pub fn new(
        correlation_id: UUID4,
        client_id: ClientId,
        instrument_id: InstrumentId,
        data: B,
        start: Option<u64>,
        end: Option<u64>,
        ts_init: u64,
        params: Option<Params>,
    ) -> (r: Self)
        ensures
            r.correlation_id == correlation_id,
            r.client_id == client_id,
            r.instrument_id == instrument_id,
            r.data == data,
            r.start == start,
            r.end == end,
            r.ts_init == ts_init,
            r.params == params,
    {
        BookResponse { correlation_id, client_id, instrument_id, data, start, end, ts_init, params }
    }
}

/// A response carrying order book deltas.
#[derive(Clone, Debug)]
pub struct BookDeltasResponse<D> {
    pub correlation_id: UUID4,
    pub client_id: ClientId,
    pub instrument_id: InstrumentId,
    pub data: Vec<D>,
    pub start: Option<u64>,
    pub end: Option<u64>,
    pub ts_init: u64,
    pub params: Option<Params>,
}

impl<D> BookDeltasResponse<D> {
    /// Creates a new [`BookDeltasResponse`].
    #[allow(clippy::too_many_arguments)]
    pub fn new(
        correlation_id: UUID4,
        client_id: ClientId,
        instrument_id: InstrumentId,
        data: Vec<D>,
        start: Option<u64>,
        end: Option<u64>,
        ts_init: u64,
        params: Option<Params>,
    ) -> (r: Self)
        ensures
            r.correlation_id == correlation_id,
            r.client_id == client_id,
            r.instrument_id == instrument_id,
            r.data == data,
            r.start == start,
            r.end == end,
            r.ts_init == ts_init,
            r.params == params,
    {
        BookDeltasResponse { correlation_id, client_id, instrument_id, data, start, end, ts_init, params }
    }
}

/// A response carrying order book depth snapshots.
#[derive(Clone, Debug)]
pub struct BookDepthResponse<D> {
    pub correlation_id: UUID4,
    pub client_id: ClientId,
    pub instrument_id: InstrumentId,
    pub data: Vec<D>,
    pub start: Option<u64>,
    pub end: Option<u64>,
    pub ts_init: u64,
    pub params: Option<Params>,
}

impl<D> BookDepthResponse<D> {
    /// Creates a new [`BookDepthResponse`].
    #[allow(clippy::too_many_arguments)]
    pub fn new(
        correlation_id: UUID4,
        client_id: ClientId,
        instrument_id: InstrumentId,
        data: Vec<D>,
        start: Option<u64>,
        end: Option<u64>,
        ts_init: u64,
        params: Option<Params>,
    ) -> (r: Self)
        ensures
            r.correlation_id == correlation_id,
            r.client_id == client_id,
            r.instrument_id == instrument_id,
            r.data == data,
            r.start == start,
            r.end == end,
            r.ts_init == ts_init,
            r.params == params,
    {
        BookDepthResponse { correlation_id, client_id, instrument_id, data, start, end, ts_init, params }
    }
}

/// A response carrying quote ticks.
#[derive(Clone, Debug)]
pub struct QuotesResponse<Q> {
    pub correlation_id: UUID4,
    pub client_id: ClientId,
    pub instrument_id: InstrumentId,
    pub data: Vec<Q>,
    pub start: Option<u64>,
    pub end: Option<u64>,
    pub ts_init: u64,
    pub params: Option<Params>,
}

impl<Q> QuotesResponse<Q> {
    /// Creates a new [`QuotesResponse`].
    #[allow(clippy::too_many_arguments)]
    pub fn new(
        correlation_id: UUID4,
        client_id: ClientId,
        instrument_id: InstrumentId,
        data: Vec<Q>,
        start: Option<u64>,
        end: Option<u64>,
        ts_init: u64,
        params: Option<Params>,
    ) -> (r: Self)
        ensures
            r.correlation_id == correlation_id,
            r.client_id == client_id,
            r.instrument_id == instrument_id,
            r.data == data,
            r.start == start,
            r.end == end,
            r.ts_init == ts_init,
            r.params == params,
    {
        QuotesResponse { correlation_id, client_id, instrument_id, data, start, end, ts_init, params }
    }
}

/// A response carrying trade ticks.
#[derive(Clone, Debug)]
pub struct TradesResponse<T> {
    pub correlation_id: UUID4,
    pub client_id: ClientId,
    pub instrument_id: InstrumentId,
    pub data: Vec<T>,
    pub start: Option<u64>,
    pub end: Option<u64>,
    pub ts_init: u64,
    pub params: Option<Params>,
}

impl<T> TradesResponse<T> {
    /// Creates a new [`TradesResponse`].
    #[allow(clippy::too_many_arguments)]
    pub fn new(
        correlation_id: UUID4,
        client_id: ClientId,
        instrument_id: InstrumentId,
        data: Vec<T>,
        start: Option<u64>,
        end: Option<u64>,
        ts_init: u64,
        params: Option<Params>,
    ) -> (r: Self)
        ensures
            r.correlation_id == correlation_id,
            r.client_id == client_id,
            r.instrument_id == instrument_id,
            r.data == data,
            r.start == start,
            r.end == end,
            r.ts_init == ts_init,
            r.params == params,
    {
        TradesResponse { correlation_id, client_id, instrument_id, data, start, end, ts_init, params }
    }
}

/// A response carrying funding rate updates.
#[derive(Clone, Debug)]
pub struct FundingRatesResponse<F> {
    pub correlation_id: UUID4,
    pub client_id: ClientId,
    pub instrument_id: InstrumentId,
    pub data: Vec<F>,
    pub start: Option<u64>,
    pub end: Option<u64>,
    pub ts_init: u64,
    pub params: Option<Params>,
}

impl<F> FundingRatesResponse<F> {
    /// Creates a new [`FundingRatesResponse`].
    #[allow(clippy::too_many_arguments)]
    pub fn new(
        correlation_id: UUID4,
        client_id: ClientId,
        instrument_id: InstrumentId,
        data: Vec<F>,
        start: Option<u64>,
        end: Option<u64>,
        ts_init: u64,
        params: Option<Params>,
    ) -> (r: Self)
        ensures
            r.correlation_id == correlation_id,
            r.client_id == client_id,
            r.instrument_id == instrument_id,
            r.data == data,
            r.start == start,
            r.end == end,
            r.ts_init == ts_init,
            r.params == params,
    {
        FundingRatesResponse { correlation_id, client_id, instrument_id, data, start, end, ts_init, params }
    }
}

/// A response carrying the reference price of an option series, when there is one.
#[derive(Clone, Debug)]
pub struct OptionChainReferencePriceResponse {
    pub correlation_id: UUID4,
    pub client_id: ClientId,
    pub series_id: OptionSeriesId,
    pub price: Option<Price>,
    pub ts_init: u64,
    pub params: Option<Params>,
}

impl OptionChainReferencePriceResponse {
    /// Creates a new [`OptionChainReferencePriceResponse`].
    pub fn new(
        correlation_id: UUID4,
        client_id: ClientId,
        series_id: OptionSeriesId,
        price: Option<Price>,
        ts_init: u64,
        params: Option<Params>,
    ) -> (r: Self)
        ensures
            r.correlation_id == correlation_id,
            r.client_id == client_id,
            r.series_id == series_id,
            r.price == price,
            r.ts_init == ts_init,
            r.params == params,
    {
        OptionChainReferencePriceResponse { correlation_id, client_id, series_id, price, ts_init, params }
    }
}

} // verus!
