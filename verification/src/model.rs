//! Plain-value model of the identifiers, bar types and market data that the validation reads.

use vstd::prelude::*;

verus! {

/// A version-4 request identifier, held as its 128 bits.
#[derive(Clone, Copy, Debug, PartialEq, Eq, Hash, Structural)]
pub struct UUID4 {
    pub value: u128,
}

/// A data client identity, held as an interned handle.
#[derive(Clone, Copy, Debug, PartialEq, Eq, Hash, Structural)]
pub struct ClientId {
    pub id: u64,
}

/// An instrument identity, held as an interned handle.
#[derive(Clone, Copy, Debug, PartialEq, Eq, Hash, Structural)]
pub struct InstrumentId {
    pub id: u64,
}

/// A venue identity, held as an interned handle.
#[derive(Clone, Copy, Debug, PartialEq, Eq, Hash, Structural)]
pub struct Venue {
    pub id: u64,
}

/// An option series identity, held as an interned handle.
#[derive(Clone, Copy, Debug, PartialEq, Eq, Hash, Structural)]
pub struct OptionSeriesId {
    pub id: u64,
}

/// The aggregation method of a bar specification.
#[derive(Clone, Copy, Debug, PartialEq, Eq, Hash, Structural)]
pub enum BarAggregation {
    Tick,
    TickImbalance,
    TickRuns,
    Volume,
    VolumeImbalance,
    VolumeRuns,
    Value,
    ValueImbalance,
    ValueRuns,
    Millisecond,
    Second,
    Minute,
    Hour,
    Day,
    Week,
    Month,
    Year,
    Renko,
}

/// The price type a bar is built from.
#[derive(Clone, Copy, Debug, PartialEq, Eq, Hash, Structural)]
pub enum PriceType {
    Bid,
    Ask,
    Mid,
    Last,
    Mark,
}

/// Whether bars are aggregated by the venue or by the engine.
#[derive(Clone, Copy, Debug, PartialEq, Eq, Hash, Structural)]
pub enum AggregationSource {
    External,
    Internal,
}

/// Step, aggregation method and price type of a bar.
#[derive(Clone, Copy, Debug, PartialEq, Eq, Hash, Structural)]
pub struct BarSpecification {
    pub step: usize,
    pub aggregation: BarAggregation,
    pub price_type: PriceType,
}

/// A standard bar type, or a composite one built from another standard bar type.
#[derive(Clone, Copy, Debug, PartialEq, Eq, Hash, Structural)]
pub enum BarType {
    Standard {
        instrument_id: InstrumentId,
        spec: BarSpecification,
        aggregation_source: AggregationSource,
    },
    Composite {
        instrument_id: InstrumentId,
        spec: BarSpecification,
        aggregation_source: AggregationSource,
        composite_step: usize,
        composite_aggregation: BarAggregation,
        composite_aggregation_source: AggregationSource,
    },
}

impl BarType {
    pub open spec fn spec_spec(&self) -> BarSpecification {
        match *self {
            BarType::Standard { spec, .. } => spec,
            BarType::Composite { spec, .. } => spec,
        }
    }

    pub open spec fn spec_instrument_id(&self) -> InstrumentId {
        match *self {
            BarType::Standard { instrument_id, .. } => instrument_id,
            BarType::Composite { instrument_id, .. } => instrument_id,
        }
    }

    pub open spec fn spec_aggregation_source(&self) -> AggregationSource {
        match *self {
            BarType::Standard { aggregation_source, .. } => aggregation_source,
            BarType::Composite { aggregation_source, .. } => aggregation_source,
        }
    }

    pub open spec fn spec_is_standard(&self) -> bool {
        self is Standard
    }

    pub open spec fn spec_is_composite(&self) -> bool {
        self is Composite
    }

    pub open spec fn spec_is_externally_aggregated(&self) -> bool {
        self.spec_aggregation_source() == AggregationSource::External
    }

    /// The standard part: a composite bar type without its composite input.
    pub open spec fn spec_standard(&self) -> BarType {
        BarType::Standard {
            instrument_id: self.spec_instrument_id(),
            spec: self.spec_spec(),
            aggregation_source: self.spec_aggregation_source(),
        }
    }

    /// The standard input bar type that a composite bar type is built from.
    pub open spec fn spec_composite(&self) -> BarType {
        match *self {
            BarType::Standard { .. } => *self,
            BarType::Composite {
                instrument_id,
                spec,
                composite_step,
                composite_aggregation,
                composite_aggregation_source,
                ..
            } => BarType::Standard {
                instrument_id,
                spec: BarSpecification {
                    step: composite_step,
                    aggregation: composite_aggregation,
                    price_type: spec.price_type,
                },
                aggregation_source: composite_aggregation_source,
            },
        }
    }

    #[verifier::when_used_as_spec(spec_spec)]
    pub fn spec(&self) -> (r: BarSpecification)
        ensures
            r == self.spec_spec(),
    {
        match self {
            BarType::Standard { spec, .. } => *spec,
            BarType::Composite { spec, .. } => *spec,
        }
    }

    #[verifier::when_used_as_spec(spec_instrument_id)]
    pub fn instrument_id(&self) -> (r: InstrumentId)
        ensures
            r == self.spec_instrument_id(),
    {
        match self {
            BarType::Standard { instrument_id, .. } => *instrument_id,
            BarType::Composite { instrument_id, .. } => *instrument_id,
        }
    }

    #[verifier::when_used_as_spec(spec_aggregation_source)]
    pub fn aggregation_source(&self) -> (r: AggregationSource)
        ensures
            r == self.spec_aggregation_source(),
    {
        match self {
            BarType::Standard { aggregation_source, .. } => *aggregation_source,
            BarType::Composite { aggregation_source, .. } => *aggregation_source,
        }
    }

    #[verifier::when_used_as_spec(spec_is_standard)]
    pub fn is_standard(&self) -> (r: bool)
        ensures
            r == self.spec_is_standard(),
    {
        matches!(self, BarType::Standard { .. })
    }

    #[verifier::when_used_as_spec(spec_is_composite)]
    pub fn is_composite(&self) -> (r: bool)
        ensures
            r == self.spec_is_composite(),
    {
        matches!(self, BarType::Composite { .. })
    }

    #[verifier::when_used_as_spec(spec_is_externally_aggregated)]
    pub fn is_externally_aggregated(&self) -> (r: bool)
        ensures
            r == self.spec_is_externally_aggregated(),
    {
        match self.aggregation_source() {
            AggregationSource::External => true,
            AggregationSource::Internal => false,
        }
    }

    #[verifier::when_used_as_spec(spec_standard)]
    pub fn standard(&self) -> (r: BarType)
        ensures
            r == self.spec_standard(),
    {
        BarType::Standard {
            instrument_id: self.instrument_id(),
            spec: self.spec(),
            aggregation_source: self.aggregation_source(),
        }
    }

    #[verifier::when_used_as_spec(spec_composite)]
    pub fn composite(&self) -> (r: BarType)
        ensures
            r == self.spec_composite(),
    {
        match self {
            BarType::Standard { .. } => *self,
            BarType::Composite {
                instrument_id,
                spec,
                composite_step,
                composite_aggregation,
                composite_aggregation_source,
                ..
            } => BarType::Standard {
                instrument_id: *instrument_id,
                spec: BarSpecification {
                    step: *composite_step,
                    aggregation: *composite_aggregation,
                    price_type: spec.price_type,
                },
                aggregation_source: *composite_aggregation_source,
            },
        }
    }
}

/// Raw value that marks an undefined price.
pub const PRICE_UNDEF: i64 = 9223372036854775807i64;

/// Raw value that marks a price in error.
pub const PRICE_ERROR: i64 = -9223372036854775808i64;

/// Raw value that marks an undefined quantity.
pub const QUANTITY_UNDEF: u64 = 18446744073709551615u64;

/// A fixed-point price: `raw` at the fixed scale, with its display precision.
#[derive(Clone, Copy, Debug, PartialEq, Eq, Hash, Structural)]
pub struct Price {
    pub raw: i64,
    pub precision: u8,
}

impl Price {
    pub open spec fn spec_is_positive(&self) -> bool {
        self.raw != PRICE_UNDEF && self.raw > 0
    }

    pub open spec fn spec_is_undefined(&self) -> bool {
        self.raw == PRICE_UNDEF
    }

    pub open spec fn spec_is_error(&self) -> bool {
        self.raw == PRICE_ERROR
    }

    #[verifier::when_used_as_spec(spec_is_positive)]
    pub fn is_positive(&self) -> (r: bool)
        ensures
            r == self.spec_is_positive(),
    {
        self.raw != PRICE_UNDEF && self.raw > 0
    }

    #[verifier::when_used_as_spec(spec_is_undefined)]
    pub fn is_undefined(&self) -> (r: bool)
        ensures
            r == self.spec_is_undefined(),
    {
        self.raw == PRICE_UNDEF
    }

    #[verifier::when_used_as_spec(spec_is_error)]
    pub fn is_error(&self) -> (r: bool)
        ensures
            r == self.spec_is_error(),
    {
        self.raw == PRICE_ERROR
    }
}

/// A fixed-point non-negative quantity: `raw` at the fixed scale, with its display precision.
#[derive(Clone, Copy, Debug, PartialEq, Eq, Hash, Structural)]
pub struct Quantity {
    pub raw: u64,
    pub precision: u8,
}

impl Quantity {
    pub open spec fn spec_is_undefined(&self) -> bool {
        self.raw == QUANTITY_UNDEF
    }

    #[verifier::when_used_as_spec(spec_is_undefined)]
    pub fn is_undefined(&self) -> (r: bool)
        ensures
            r == self.spec_is_undefined(),
    {
        self.raw == QUANTITY_UNDEF
    }
}

/// One OHLCV bar with its event and receipt timestamps in UNIX nanoseconds.
#[derive(Clone, Copy, Debug, PartialEq, Eq, Hash, Structural)]
pub struct Bar {
    pub bar_type: BarType,
    pub open: Price,
    pub high: Price,
    pub low: Price,
    pub close: Price,
    pub volume: Quantity,
    pub ts_event: u64,
    pub ts_init: u64,
}

impl Bar {
    /// Creates a new [`Bar`].
    #[allow(clippy::too_many_arguments)]
    pub fn new(
        bar_type: BarType,
        open: Price,
        high: Price,
        low: Price,
        close: Price,
        volume: Quantity,
        ts_event: u64,
        ts_init: u64,
    ) -> (r: Bar)
        ensures
            r == (Bar { bar_type, open, high, low, close, volume, ts_event, ts_init }),
    {
        Bar { bar_type, open, high, low, close, volume, ts_event, ts_init }
    }
}

} // verus!
