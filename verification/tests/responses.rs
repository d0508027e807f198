use nautilus_history::messages::{ParamValue, Params, RequestBars};
use nautilus_history::model::{
    AggregationSource, Bar, BarAggregation, BarSpecification, BarType, ClientId, InstrumentId,
    Price, PriceType, Quantity, UUID4,
};
use nautilus_history::response::{
    trim_data_to_bounds, BarsResponse, DataResponse, HistoricalBarsRequestFailure,
};

fn minute() -> BarType {
    BarType::Standard {
        instrument_id: InstrumentId { id: 1 },
        spec: BarSpecification {
            step: 1,
            aggregation: BarAggregation::Minute,
            price_type: PriceType::Last,
        },
        aggregation_source: AggregationSource::External,
    }
}

fn bar(ts: u64) -> Bar {
    let p = Price { raw: 100_000_000_000, precision: 2 };
    Bar::new(minute(), p, p, p, p, Quantity { raw: 1, precision: 0 }, ts, ts)
}

fn stamps(data: &[Bar]) -> Vec<u64> {
    data.iter().map(|b| b.ts_init).collect()
}

fn bars(ts: &[u64]) -> Vec<Bar> {
    ts.iter().map(|t| bar(*t)).collect()
}

#[test]
fn test_trim_keeps_the_inclusive_window() {
    let mut data = bars(&[10, 20, 30, 40]);
    trim_data_to_bounds(&mut data, Some(20), Some(30));
    assert_eq!(stamps(&data), vec![20, 30]);

    let mut data = bars(&[10, 20, 30, 40]);
    trim_data_to_bounds(&mut data, Some(15), Some(35));
    assert_eq!(stamps(&data), vec![20, 30]);
}

#[test]
fn test_trim_with_one_bound() {
    let mut data = bars(&[10, 20, 30, 40]);
    trim_data_to_bounds(&mut data, Some(25), None);
    assert_eq!(stamps(&data), vec![30, 40]);

    let mut data = bars(&[10, 20, 30, 40]);
    trim_data_to_bounds(&mut data, None, Some(25));
    assert_eq!(stamps(&data), vec![10, 20]);
}

#[test]
fn test_trim_without_bounds_or_data_changes_nothing() {
    let mut data = bars(&[40, 10, 30]);
    trim_data_to_bounds(&mut data, None, None);
    assert_eq!(stamps(&data), vec![40, 10, 30]);

    let mut empty: Vec<Bar> = Vec::new();
    trim_data_to_bounds(&mut empty, Some(1), Some(2));
    assert!(empty.is_empty());
}

#[test]
fn test_trim_clears_when_the_window_misses_the_data() {
    let mut data = bars(&[10, 20, 30]);
    trim_data_to_bounds(&mut data, Some(31), None);
    assert!(data.is_empty());

    let mut data = bars(&[10, 20, 30]);
    trim_data_to_bounds(&mut data, None, Some(9));
    assert!(data.is_empty());

    let mut data = bars(&[10, 20, 30]);
    trim_data_to_bounds(&mut data, Some(21), Some(29));
    assert!(data.is_empty());

    let mut data = bars(&[10, 20, 30]);
    trim_data_to_bounds(&mut data, Some(30), Some(10));
    assert!(data.is_empty());
}

#[test]
fn test_trim_takes_first_at_or_after_start_and_last_at_or_before_end() {
    // Unsorted data: the run goes from the first entry at or after the start to the last entry
    // at or before the end.
    let mut data = bars(&[5, 50, 20, 60, 30, 70]);
    trim_data_to_bounds(&mut data, Some(20), Some(40));
    assert_eq!(stamps(&data), vec![50, 20, 60, 30]);
}

#[test]
fn test_trim_law_on_sorted_data() {
    // On sorted data, trimming keeps exactly the entries inside the window.
    let all = [3u64, 3, 8, 13, 21, 21, 34];
    for start in [None, Some(0), Some(3), Some(9), Some(21), Some(35)] {
        for end in [None, Some(2), Some(3), Some(20), Some(21), Some(100)] {
            let mut data = bars(&all);
            trim_data_to_bounds(&mut data, start, end);
            let expected: Vec<u64> = all
                .iter()
                .copied()
                .filter(|t| start.map_or(true, |s| *t >= s) && end.map_or(true, |e| *t <= e))
                .collect();
            assert_eq!(stamps(&data), expected);
        }
    }
}

fn response() -> BarsResponse {
    BarsResponse::new(
        UUID4 { value: 42 },
        ClientId { id: 3 },
        minute(),
        bars(&[1, 2, 3]),
        Some(1),
        Some(3),
        99,
        None,
    )
}

#[test]
fn test_bars_response_new_has_no_outcome() {
    let r = response();
    assert_eq!(r.correlation_id, UUID4 { value: 42 });
    assert_eq!(r.client_id, ClientId { id: 3 });
    assert_eq!(r.bar_type, minute());
    assert_eq!(stamps(&r.data), vec![1, 2, 3]);
    assert_eq!(r.start, Some(1));
    assert_eq!(r.end, Some(3));
    assert_eq!(r.ts_init, 99);
    assert!(r.params.is_none());
    assert!(r.historical_outcome.is_none());
}

#[test]
fn test_bars_response_clone_keeps_params_in_order() {
    let mut r = response();
    let mut params = Params::new();
    params.insert("a".to_string(), ParamValue::Unsigned(1));
    params.insert("b".to_string(), ParamValue::Text("x".to_string()));
    r.params = Some(params);
    let c = r.clone();
    let p = c.params.unwrap();
    assert_eq!(p.entries.len(), 2);
    assert_eq!(p.entries[0].key, "a");
    assert_eq!(p.entries[1].key, "b");
    assert_eq!(p.get("a").and_then(|v| v.as_u64()), Some(1));
    assert_eq!(stamps(&c.data), vec![1, 2, 3]);
}

fn failure() -> HistoricalBarsRequestFailure {
    HistoricalBarsRequestFailure {
        request: RequestBars {
            bar_type: minute(),
            start: Some(-1),
            end: None,
            limit: Some(17),
            client_id: Some(ClientId { id: 8 }),
            request_id: UUID4 { value: 77 },
            ts_init: u64::MAX - 1,
            params: None,
            scope: None,
            aggregation_plan: None,
        },
        client_id: None,
        error: "invalid original source coverage".to_string(),
        aggregate_bar_types: vec![minute()],
        ts_init: u64::MAX,
    }
}

#[test]
fn test_data_response_correlation_and_record_count() {
    let bars = DataResponse::Bars(response());
    assert_eq!(bars.correlation_id(), UUID4 { value: 42 });
    assert_eq!(bars.record_count(), Some(3));

    let failed = DataResponse::BarsRequestFailed(failure());
    assert_eq!(failed.correlation_id(), UUID4 { value: 77 });
    assert_eq!(failed.record_count(), None);

    let other = DataResponse::Other { correlation_id: UUID4 { value: 5 }, record_count: Some(9) };
    assert_eq!(other.correlation_id(), UUID4 { value: 5 });
    assert_eq!(other.record_count(), Some(9));
}
