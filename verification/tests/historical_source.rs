use nautilus_history::error::SourceError;
use nautilus_history::messages::{ParamValue, Params, RequestBars};
use nautilus_history::model::{
    AggregationSource, Bar, BarAggregation, BarSpecification, BarType, ClientId, InstrumentId,
    Price, PriceType, Quantity, QUANTITY_UNDEF, UUID4,
};
use nautilus_history::response::BarsResponse;
use nautilus_history::source::{validate_ohlcv, HistoricalBarSource};
use nautilus_history::time::{NANOSECONDS_IN_MILLISECOND, NANOSECONDS_IN_MINUTE};

const START_NS: u64 = 1_735_689_600_000_000_000;
const SCALE: i64 = 1_000_000_000;

fn bar_type(instrument: u64, step: usize, aggregation: BarAggregation) -> BarType {
    BarType::Standard {
        instrument_id: InstrumentId { id: instrument },
        spec: BarSpecification { step, aggregation, price_type: PriceType::Last },
        aggregation_source: AggregationSource::External,
    }
}

fn btc() -> BarType {
    bar_type(1, 1, BarAggregation::Minute)
}

fn eth() -> BarType {
    bar_type(2, 1, BarAggregation::Minute)
}

fn binance() -> ClientId {
    ClientId { id: 1 }
}

fn price(hundredths: i64) -> Price {
    Price { raw: hundredths * SCALE / 100, precision: 2 }
}

fn request() -> RequestBars {
    RequestBars {
        bar_type: btc(),
        start: Some((START_NS - NANOSECONDS_IN_MINUTE) as i128),
        end: Some((START_NS + 6 * NANOSECONDS_IN_MINUTE - NANOSECONDS_IN_MILLISECOND) as i128),
        limit: Some(7),
        client_id: Some(binance()),
        request_id: UUID4 { value: 0x5a1e_0000_0000_4000_8000_0000_0000_0001 },
        ts_init: START_NS,
        params: None,
        scope: None,
        aggregation_plan: None,
    }
}

fn response(request: &RequestBars) -> BarsResponse {
    let data = (0..7u64)
        .map(|index| {
            let timestamp = START_NS + index * NANOSECONDS_IN_MINUTE - NANOSECONDS_IN_MILLISECOND;
            Bar::new(
                request.bar_type,
                price(10_000),
                price(10_100),
                price(9_900),
                price(10_050),
                Quantity { raw: 1_000_000_000, precision: 3 },
                timestamp,
                timestamp,
            )
        })
        .collect();
    BarsResponse::new(
        request.request_id,
        binance(),
        request.bar_type,
        data,
        None,
        None,
        request.ts_init,
        None,
    )
}

fn source() -> HistoricalBarSource {
    HistoricalBarSource::new(&request(), binance()).unwrap()
}

#[test]
fn test_historical_source_complete_page_does_not_mutate_input() {
    let request = request();
    let source = HistoricalBarSource::new(&request, binance()).unwrap();
    let response = response(&request);
    let original = response.data.clone();
    source.validate(&response, true).unwrap();
    assert_eq!(response.data, original);
}

fn missing_edge_or_middle_rejects(missing: usize) {
    let request = request();
    let source = HistoricalBarSource::new(&request, binance()).unwrap();
    let mut response = response(&request);
    response.data.remove(missing);
    assert!(source.validate(&response, true).is_err());
}

#[test]
fn test_historical_source_missing_edge_or_middle_rejects_first() {
    missing_edge_or_middle_rejects(0);
}

#[test]
fn test_historical_source_missing_edge_or_middle_rejects_second() {
    missing_edge_or_middle_rejects(1);
}

#[test]
fn test_historical_source_missing_edge_or_middle_rejects_middle() {
    missing_edge_or_middle_rejects(3);
}

#[test]
fn test_historical_source_missing_edge_or_middle_rejects_last() {
    missing_edge_or_middle_rejects(6);
}

#[test]
fn test_historical_source_response_echo_cannot_shrink_original_window() {
    let request = request();
    let source = HistoricalBarSource::new(&request, binance()).unwrap();
    let mut response = response(&request);
    response.data.remove(3);
    response.start = Some(response.data[0].ts_event);
    response.end = Some(response.data[1].ts_event);
    let mut params = Params::new();
    params.insert("data_count".to_string(), ParamValue::Unsigned(response.data.len() as u64));
    response.params = Some(params);
    assert!(source.validate(&response, true).is_err());
}

fn rejects_wrong_identity(mismatch: u8) {
    let request = request();
    let source = HistoricalBarSource::new(&request, binance()).unwrap();
    let mut response = response(&request);
    match mismatch {
        0 => response.correlation_id = UUID4 { value: 0xdead_beef },
        1 => response.client_id = ClientId { id: 2 },
        2 => response.bar_type = eth(),
        _ => response.data[3].bar_type = eth(),
    }
    assert!(source.validate(&response, true).is_err());
}

#[test]
fn test_historical_source_rejects_wrong_identity_request_id() {
    rejects_wrong_identity(0);
}

#[test]
fn test_historical_source_rejects_wrong_identity_client_id() {
    rejects_wrong_identity(1);
}

#[test]
fn test_historical_source_rejects_wrong_identity_bar_type() {
    rejects_wrong_identity(2);
}

#[test]
fn test_historical_source_rejects_wrong_identity_row_bar_type() {
    rejects_wrong_identity(3);
}

fn close_phase_tolerance(offset: i64, valid: bool) {
    let request = request();
    let source = HistoricalBarSource::new(&request, binance()).unwrap();
    let mut response = response(&request);
    for bar in &mut response.data {
        bar.ts_event = bar.ts_event.checked_add_signed(offset).unwrap();
    }
    assert_eq!(source.validate(&response, true).is_ok(), valid);
}

#[test]
fn test_historical_source_close_phase_tolerance_minus_one_microsecond() {
    close_phase_tolerance(-1_000, true);
}

#[test]
fn test_historical_source_close_phase_tolerance_exact() {
    close_phase_tolerance(0, true);
}

#[test]
fn test_historical_source_close_phase_tolerance_small_jitter() {
    close_phase_tolerance(128, true);
}

#[test]
fn test_historical_source_close_phase_tolerance_plus_one_microsecond() {
    close_phase_tolerance(1_000, true);
}

#[test]
fn test_historical_source_close_phase_tolerance_just_below() {
    close_phase_tolerance(-1_001, false);
}

#[test]
fn test_historical_source_close_phase_tolerance_just_above() {
    close_phase_tolerance(1_001, false);
}

#[test]
fn test_historical_source_close_phase_tolerance_one_millisecond() {
    close_phase_tolerance(1_000_000, false);
}

fn rejects_bad_tail_before_any_effect(fault: u8) {
    let request = request();
    let source = HistoricalBarSource::new(&request, binance()).unwrap();
    let mut response = response(&request);
    match fault {
        0 => response.data[6].ts_event = response.data[5].ts_event,
        1 => response.data.swap(5, 6),
        2 => response.data[6].high = price(9_000),
        _ => response.data[6].volume = Quantity { raw: QUANTITY_UNDEF, precision: 0 },
    }
    let original = response.data.clone();
    assert!(source.validate(&response, true).is_err());
    assert_eq!(response.data, original);
}

#[test]
fn test_historical_source_rejects_bad_tail_duplicate() {
    rejects_bad_tail_before_any_effect(0);
}

#[test]
fn test_historical_source_rejects_bad_tail_out_of_order() {
    rejects_bad_tail_before_any_effect(1);
}

#[test]
fn test_historical_source_rejects_bad_tail_ohlc_bounds() {
    rejects_bad_tail_before_any_effect(2);
}

#[test]
fn test_historical_source_rejects_bad_tail_undefined_volume() {
    rejects_bad_tail_before_any_effect(3);
}

#[test]
fn test_historical_source_partial_leg_requires_complete_parent_recheck() {
    let request = request();
    let source = HistoricalBarSource::new(&request, binance()).unwrap();
    let mut response = response(&request);
    response.data.remove(3);
    source.validate(&response, false).unwrap();
    assert!(source.validate(&response, true).is_err());
}

fn rejects_unbounded_or_unsupported_request(fault: u8) {
    let mut request = request();
    match fault {
        0 => request.start = None,
        1 => request.end = None,
        2 => request.limit = None,
        3 => request.limit = Some(6),
        _ => request.bar_type = bar_type(1, 5, BarAggregation::Minute),
    }
    assert!(HistoricalBarSource::new(&request, binance()).is_err());
}

#[test]
fn test_historical_source_rejects_unbounded_request_without_start() {
    rejects_unbounded_or_unsupported_request(0);
}

#[test]
fn test_historical_source_rejects_unbounded_request_without_end() {
    rejects_unbounded_or_unsupported_request(1);
}

#[test]
fn test_historical_source_rejects_unbounded_request_without_limit() {
    rejects_unbounded_or_unsupported_request(2);
}

#[test]
fn test_historical_source_rejects_request_whose_limit_is_below_coverage() {
    rejects_unbounded_or_unsupported_request(3);
}

#[test]
fn test_historical_source_rejects_unsupported_request() {
    rejects_unbounded_or_unsupported_request(4);
}

// The exact error each fault gives, in the order the checks run.

#[test]
fn test_source_admission_errors_are_exact() {
    let mut r = request();
    r.start = None;
    assert_eq!(HistoricalBarSource::new(&r, binance()).unwrap_err(), SourceError::MissingStart);
    let mut r = request();
    r.end = None;
    assert_eq!(HistoricalBarSource::new(&r, binance()).unwrap_err(), SourceError::MissingEnd);
    let mut r = request();
    r.limit = None;
    assert_eq!(HistoricalBarSource::new(&r, binance()).unwrap_err(), SourceError::MissingLimit);
    let mut r = request();
    r.limit = Some(6);
    assert_eq!(
        HistoricalBarSource::new(&r, binance()).unwrap_err(),
        SourceError::CoverageExceedsLimit
    );
    let mut r = request();
    r.bar_type = bar_type(1, 5, BarAggregation::Minute);
    assert_eq!(
        HistoricalBarSource::new(&r, binance()).unwrap_err(),
        SourceError::UnsupportedSource
    );
    let mut r = request();
    r.start = Some(-1);
    assert_eq!(HistoricalBarSource::new(&r, binance()).unwrap_err(), SourceError::StartOutOfRange);
    let mut r = request();
    r.end = Some(u64::MAX as i128 + 1);
    assert_eq!(HistoricalBarSource::new(&r, binance()).unwrap_err(), SourceError::EndOutOfRange);
    let mut r = request();
    r.start = Some(r.end.unwrap() + 1);
    assert_eq!(HistoricalBarSource::new(&r, binance()).unwrap_err(), SourceError::StartExceedsEnd);
    // Half a minute that holds no close time.
    let mut r = request();
    r.start = Some(START_NS as i128);
    r.end = Some((START_NS + NANOSECONDS_IN_MINUTE / 2) as i128);
    assert_eq!(HistoricalBarSource::new(&r, binance()).unwrap_err(), SourceError::NoClosedMinute);
    // A pipeline child may cover no closed minute.
    let child = HistoricalBarSource::for_child(&r, binance()).unwrap();
    assert_eq!(child.expected_count, 0);
    assert_eq!(child.parent_request_id, None);
}

#[test]
fn test_source_coverage_is_the_closed_minute_grid() {
    let source = source();
    assert_eq!(source.first_close_ns, START_NS - NANOSECONDS_IN_MILLISECOND);
    assert_eq!(
        source.last_close_ns,
        START_NS + 6 * NANOSECONDS_IN_MINUTE - NANOSECONDS_IN_MILLISECOND
    );
    assert_eq!(source.expected_count, 7);
    assert_eq!(source.output_limit, 7);
    assert_eq!(source.start_ns, START_NS - NANOSECONDS_IN_MINUTE);
    assert_eq!(source.client_id, binance());
    assert_eq!(source.request_id, request().request_id);
    assert!(source.aggregation.is_none());
}

#[test]
fn test_source_validation_errors_are_exact() {
    let source = source();
    let base = response(&request());

    let mut r = response(&request());
    r.correlation_id = UUID4 { value: 7 };
    assert_eq!(source.validate(&r, true), Err(SourceError::RequestIdMismatch));

    let mut r = response(&request());
    r.client_id = ClientId { id: 9 };
    assert_eq!(source.validate(&r, true), Err(SourceError::ClientIdMismatch));

    let mut r = response(&request());
    r.bar_type = eth();
    assert_eq!(source.validate(&r, true), Err(SourceError::BarTypeMismatch));

    let mut r = response(&request());
    r.data.push(base.data[6]);
    assert_eq!(source.validate(&r, true), Err(SourceError::ExceedsCoverage));

    let mut r = response(&request());
    r.data.pop();
    assert_eq!(source.validate(&r, true), Err(SourceError::IncompleteCoverage));
    assert_eq!(source.validate(&r, false), Ok(()));

    let mut r = response(&request());
    r.data[2].bar_type = eth();
    assert_eq!(source.validate(&r, true), Err(SourceError::RowBarTypeMismatch { index: 2 }));

    let mut r = response(&request());
    r.data[4].open = Price { raw: 0, precision: 2 };
    assert_eq!(source.validate(&r, true), Err(SourceError::InvalidPriceOrVolume { index: 4 }));

    let mut r = response(&request());
    r.data[1].low = price(10_060);
    assert_eq!(source.validate(&r, true), Err(SourceError::InvalidOhlcBounds { index: 1 }));

    let mut r = response(&request());
    r.data[3].ts_event += 1_001;
    assert_eq!(source.validate(&r, true), Err(SourceError::NotClosedMinutePhase));

    let mut r = response(&request());
    r.data[6].ts_event += NANOSECONDS_IN_MINUTE;
    assert_eq!(source.validate(&r, true), Err(SourceError::OutsideCoverage { index: 6 }));

    let mut r = response(&request());
    r.data[5] = r.data[4];
    assert_eq!(
        source.validate(&r, true),
        Err(SourceError::DuplicateOrOutOfOrder { index: 5 })
    );

    // A duplicate after a skipped minute: the skip is the first fault of a complete page.
    let mut r = response(&request());
    r.data.remove(2);
    assert_eq!(source.validate(&r, false), Ok(()));
    r.data.push(base.data[6]);
    assert_eq!(r.data.len(), 7);
    assert_eq!(source.validate(&r, true), Err(SourceError::Gap { index: 2 }));
    assert_eq!(
        source.validate(&r, false),
        Err(SourceError::DuplicateOrOutOfOrder { index: 6 })
    );

    let mut gap = response(&request());
    gap.data.remove(3);
    assert_eq!(source.validate(&gap, false), Ok(()));
    gap.data.truncate(3);
    assert_eq!(source.validate(&gap, false), Ok(()));
}

#[test]
fn test_source_validation_reports_the_first_gap() {
    // A complete-length page that skips the minute at index 3 and ends past coverage.
    let source = source();
    let base = response(&request());
    let mut r = response(&request());
    r.data.remove(3);
    let mut extra = base.data[6];
    extra.ts_event += NANOSECONDS_IN_MINUTE;
    r.data.push(extra);
    assert_eq!(source.validate(&r, true), Err(SourceError::Gap { index: 3 }));
}

#[test]
fn test_validate_ohlcv_accepts_a_sound_bar_and_names_its_index() {
    let bar = response(&request()).data[0];
    assert_eq!(validate_ohlcv(&bar, 0), Ok(()));
    let mut flat = bar;
    flat.high = flat.open;
    flat.low = flat.open;
    flat.close = flat.open;
    assert_eq!(validate_ohlcv(&flat, 3), Ok(()));
    let mut undefined = bar;
    undefined.close = Price { raw: i64::MAX, precision: 2 };
    assert_eq!(
        validate_ohlcv(&undefined, 5),
        Err(SourceError::InvalidPriceOrVolume { index: 5 })
    );
    let mut negative = bar;
    negative.low = Price { raw: -1, precision: 2 };
    assert_eq!(
        validate_ohlcv(&negative, 1),
        Err(SourceError::InvalidPriceOrVolume { index: 1 })
    );
    let mut inverted = bar;
    inverted.high = price(9_800);
    assert_eq!(validate_ohlcv(&inverted, 2), Err(SourceError::InvalidOhlcBounds { index: 2 }));
}
