use nautilus_history::history::{
    PyHistoricalBarsOutcome, PyHistoricalBarsRequestFailure, PyHistoricalBarsResponse,
};
use nautilus_history::messages::{ParamValue, Params, RequestBars};
use nautilus_history::model::{
    AggregationSource, Bar, BarAggregation, BarSpecification, BarType, ClientId, InstrumentId,
    Price, PriceType, Quantity, UUID4,
};
use nautilus_history::response::{
    BarsResponse, HistoricalBarsBatch, HistoricalBarsOutcome, HistoricalBarsRequestFailure,
};

fn bar_type(step: usize, source: AggregationSource) -> BarType {
    BarType::Standard {
        instrument_id: InstrumentId { id: 4 },
        spec: BarSpecification { step, aggregation: BarAggregation::Minute, price_type: PriceType::Last },
        aggregation_source: source,
    }
}

fn the_bar() -> Bar {
    Bar::new(
        bar_type(1, AggregationSource::External),
        Price { raw: 112_001, precision: 5 },
        Price { raw: 113_002, precision: 5 },
        Price { raw: 111_003, precision: 5 },
        Price { raw: 112_504, precision: 5 },
        Quantity { raw: 127, precision: 0 },
        u64::MAX - 21,
        u64::MAX - 11,
    )
}

fn params() -> Params {
    let mut p = Params::new();
    p.insert("limit".to_string(), ParamValue::Unsigned(u64::MAX));
    p.insert("nested".to_string(), ParamValue::Other("{\"original\":true}".to_string()));
    p
}

fn response(outcome: Option<HistoricalBarsOutcome>) -> BarsResponse {
    let bar = the_bar();
    let mut response = BarsResponse::new(
        UUID4 { value: 0xabc },
        ClientId { id: 6 },
        bar.bar_type,
        vec![bar],
        Some(u64::MAX - 101),
        Some(u64::MAX - 31),
        u64::MAX - 1,
        Some(params()),
    );
    response.historical_outcome = outcome;
    response
}

#[test]
fn test_history_response_fields_and_collection_copies() {
    let view = PyHistoricalBarsResponse::from(response(None));
    assert_eq!(view.correlation_id(), UUID4 { value: 0xabc });
    assert_eq!(view.client_id(), ClientId { id: 6 });
    assert_eq!(view.bar_type(), bar_type(1, AggregationSource::External));
    assert_eq!(view.start(), Some(u64::MAX - 101));
    assert_eq!(view.end(), Some(u64::MAX - 31));
    assert_eq!(view.ts_init(), u64::MAX - 1);
    assert!(view.historical_outcome().is_none());

    let mut bars = view.bars();
    assert_eq!(bars, vec![the_bar()]);
    bars.clear();
    assert_eq!(view.bars(), vec![the_bar()]);

    let mut p = view.params().unwrap();
    assert_eq!(p.get("limit").and_then(|v| v.as_u64()), Some(u64::MAX));
    p.insert("limit".to_string(), ParamValue::Unsigned(1));
    assert_eq!(view.params().unwrap().get("limit").and_then(|v| v.as_u64()), Some(u64::MAX));
}

fn failure(resolved: bool) -> HistoricalBarsRequestFailure {
    let mut p = Params::new();
    p.insert("nested".to_string(), ParamValue::Other("{\"original\":true}".to_string()));
    HistoricalBarsRequestFailure {
        request: RequestBars {
            bar_type: bar_type(1, AggregationSource::External),
            start: Some(-1),
            end: None,
            limit: Some(17),
            client_id: Some(ClientId { id: 11 }),
            request_id: UUID4 { value: 0xf00d },
            ts_init: u64::MAX - 1,
            params: Some(p),
            scope: None,
            aggregation_plan: None,
        },
        client_id: if resolved { Some(ClientId { id: 12 }) } else { None },
        error: "invalid original source coverage".to_string(),
        aggregate_bar_types: vec![bar_type(5, AggregationSource::Internal)],
        ts_init: u64::MAX,
    }
}

fn admission_failure_owned_metadata(resolved: bool) {
    let view = PyHistoricalBarsRequestFailure::from(failure(resolved));
    assert_eq!(view.correlation_id(), UUID4 { value: 0xf00d });
    assert_eq!(view.client_id(), if resolved { Some(ClientId { id: 12 }) } else { None });
    assert_eq!(view.requested_client_id(), Some(ClientId { id: 11 }));
    assert_eq!(view.bar_type(), bar_type(1, AggregationSource::External));
    assert_eq!(view.start(), Some(-1));
    assert_eq!(view.end(), None);
    assert_eq!(view.limit(), Some(17));
    assert_eq!(view.request_ts_init(), u64::MAX - 1);
    assert_eq!(view.ts_init(), u64::MAX);
    assert_eq!(view.error(), "invalid original source coverage");
    let mut targets = view.aggregate_bar_types();
    targets.clear();
    assert_eq!(view.aggregate_bar_types(), vec![bar_type(5, AggregationSource::Internal)]);
    let mut p = view.params().unwrap();
    p.insert("nested".to_string(), ParamValue::Bool(false));
    assert!(matches!(view.params().unwrap().get("nested"), Some(ParamValue::Other(_))));
    let shared = view.clone();
    drop(view);
    assert_eq!(shared.start(), Some(-1));
}

#[test]
fn test_history_admission_failure_owned_metadata_unresolved() {
    admission_failure_owned_metadata(false);
}

#[test]
fn test_history_admission_failure_owned_metadata_resolved() {
    admission_failure_owned_metadata(true);
}

fn outcome_named_targets_survive_parent_drop(failed: bool) {
    let target = bar_type(5, AggregationSource::Internal);
    let empty_target = bar_type(10, AggregationSource::Internal);
    let mut aggregate = the_bar();
    aggregate.bar_type = target;
    let outcome = if failed {
        HistoricalBarsOutcome::Failed {
            error: "incomplete original 1m coverage".to_string(),
            aggregate_bar_types: vec![target, empty_target],
        }
    } else {
        HistoricalBarsOutcome::Validated {
            aggregates: vec![
                HistoricalBarsBatch { bar_type: target, data: vec![aggregate] },
                HistoricalBarsBatch { bar_type: empty_target, data: Vec::new() },
            ],
        }
    };
    let root = PyHistoricalBarsResponse::from(response(Some(outcome)));
    let outcome: PyHistoricalBarsOutcome = root.historical_outcome().unwrap();
    let batches = outcome.aggregates();
    drop(root);

    assert_eq!(outcome.is_validated(), !failed);
    assert_eq!(
        outcome.error(),
        if failed { Some("incomplete original 1m coverage".to_string()) } else { None }
    );
    assert_eq!(outcome.aggregate_bar_types(), vec![target, empty_target]);
    assert_eq!(batches.len(), if failed { 0 } else { 2 });

    if !failed {
        drop(outcome);
        assert_eq!(batches[0].bar_type(), Ok(target));
        assert_eq!(batches[1].bar_type(), Ok(empty_target));
        let mut copy = batches[0].bars().unwrap();
        assert_eq!(copy, vec![aggregate]);
        copy.clear();
        assert_eq!(batches[0].bars(), Ok(vec![aggregate]));
        assert_eq!(batches[1].bars(), Ok(Vec::new()));
    }
}

#[test]
fn test_history_outcome_named_targets_survive_parent_drop_validated() {
    outcome_named_targets_survive_parent_drop(false);
}

#[test]
fn test_history_outcome_named_targets_survive_parent_drop_failed() {
    outcome_named_targets_survive_parent_drop(true);
}
