use nautilus_history::error::{decimal, AdmissionError, SourceError};
use nautilus_history::messages::RequestBarAggregation;
use nautilus_history::model::{
    AggregationSource, Bar, BarAggregation, BarSpecification, BarType, InstrumentId, Price,
    PriceType, Quantity,
};
use nautilus_history::outputs::HistoricalBarOutputs;
use nautilus_history::plan::check_plan;

fn spec(step: usize, aggregation: BarAggregation) -> BarSpecification {
    BarSpecification { step, aggregation, price_type: PriceType::Last }
}

fn source() -> BarType {
    BarType::Standard {
        instrument_id: InstrumentId { id: 1 },
        spec: spec(1, BarAggregation::Minute),
        aggregation_source: AggregationSource::External,
    }
}

/// A composite target `step aggregation` built from the standard input `input`.
fn composite(step: usize, aggregation: BarAggregation, input: BarType) -> BarType {
    let BarType::Standard { spec: input_spec, aggregation_source, .. } = input else {
        panic!("input must be standard");
    };
    BarType::Composite {
        instrument_id: InstrumentId { id: 1 },
        spec: spec(step, aggregation),
        aggregation_source: AggregationSource::Internal,
        composite_step: input_spec.step,
        composite_aggregation: input_spec.aggregation,
        composite_aggregation_source: aggregation_source,
    }
}

fn bar(bar_type: BarType, ts: u64) -> Bar {
    let p = Price { raw: 5, precision: 0 };
    Bar::new(bar_type, p, p, p, p, Quantity { raw: 1, precision: 0 }, ts, ts)
}

#[test]
fn test_outputs_without_plan_refuse_every_bar() {
    let mut o = HistoricalBarOutputs::new(None, 3).unwrap();
    assert!(!o.is_closed());
    assert!(!o.record(bar(source(), 1)));
    assert!(!o.record(bar(source(), 2)));
    let res = o.finish();
    assert!(o.is_closed());
    assert_eq!(res.unwrap_err(), "Native aggregate output has an unrequested BarType");
}

#[test]
fn test_outputs_collect_per_target_in_plan_order() {
    let five = composite(5, BarAggregation::Minute, source());
    let fifteen = composite(15, BarAggregation::Minute, source());
    let plan = RequestBarAggregation { bar_types: vec![fifteen, five], skip_first_non_full_bar: false };
    let mut o = HistoricalBarOutputs::new(Some(&plan), 2).unwrap();
    assert!(o.record(bar(five.standard(), 1)));
    assert!(o.record(bar(fifteen.standard(), 2)));
    assert!(o.record(bar(five.standard(), 3)));
    let batches = o.finish().unwrap();
    assert!(o.is_closed());
    assert_eq!(batches.len(), 2);
    assert_eq!(batches[0].bar_type, fifteen.standard());
    assert_eq!(batches[0].data, vec![bar(fifteen.standard(), 2)]);
    assert_eq!(batches[1].bar_type, five.standard());
    assert_eq!(batches[1].data, vec![bar(five.standard(), 1), bar(five.standard(), 3)]);
    // Closed outputs keep nothing more.
    assert!(!o.record(bar(five.standard(), 4)));
}

#[test]
fn test_outputs_keep_empty_targets() {
    let five = composite(5, BarAggregation::Minute, source());
    let plan = RequestBarAggregation { bar_types: vec![five], skip_first_non_full_bar: true };
    let mut o = HistoricalBarOutputs::new(Some(&plan), 1).unwrap();
    let batches = o.finish().unwrap();
    assert_eq!(batches.len(), 1);
    assert_eq!(batches[0].bar_type, five.standard());
    assert!(batches[0].data.is_empty());
}

#[test]
fn test_outputs_bound_and_first_error_stays() {
    let five = composite(5, BarAggregation::Minute, source());
    let plan = RequestBarAggregation { bar_types: vec![five], skip_first_non_full_bar: false };
    let mut o = HistoricalBarOutputs::new(Some(&plan), 1).unwrap();
    assert!(o.record(bar(five.standard(), 1)));
    assert!(!o.record(bar(five.standard(), 2)));
    // After the first error nothing is recorded, and the error does not change.
    assert!(!o.record(bar(source(), 3)));
    assert_eq!(
        o.finish().unwrap_err(),
        "Native aggregate output exceeds original source count bound"
    );
}

#[test]
fn test_outputs_refuse_duplicate_targets() {
    let five = composite(5, BarAggregation::Minute, source());
    let plan = RequestBarAggregation { bar_types: vec![five, five.standard()], skip_first_non_full_bar: false };
    assert_eq!(HistoricalBarOutputs::new(Some(&plan), 1).unwrap_err(), SourceError::DuplicateTargets);
}

#[test]
fn test_plan_built_directly_from_the_source() {
    let five = composite(5, BarAggregation::Minute, source());
    assert!(check_plan(&vec![five], source()).is_ok());
    assert!(check_plan(&vec![], source()).is_ok());
}

#[test]
fn test_plan_chain_through_another_target() {
    let five = composite(5, BarAggregation::Minute, source());
    let hour = composite(1, BarAggregation::Hour, five.standard());
    assert!(check_plan(&vec![hour, five], source()).is_ok());
    assert!(check_plan(&vec![five, hour], source()).is_ok());
}

#[test]
fn test_plan_refusals() {
    let five = composite(5, BarAggregation::Minute, source());
    assert!(matches!(check_plan(&vec![five.standard()], source()), Err(AdmissionError::NoAcyclicPath)));

    let thirty_seconds = composite(30, BarAggregation::Second, source());
    assert!(matches!(
        check_plan(&vec![thirty_seconds], source()),
        Err(AdmissionError::TargetFinerThanSource)
    ));
    let sixty_seconds = composite(60, BarAggregation::Second, source());
    assert!(check_plan(&vec![sixty_seconds], source()).is_ok());
    let millis = composite(59_999, BarAggregation::Millisecond, source());
    assert!(matches!(check_plan(&vec![millis], source()), Err(AdmissionError::TargetFinerThanSource)));

    let ten = composite(10, BarAggregation::Minute, BarType::Standard {
        instrument_id: InstrumentId { id: 1 },
        spec: spec(2, BarAggregation::Minute),
        aggregation_source: AggregationSource::Internal,
    });
    assert!(matches!(check_plan(&vec![ten], source()), Err(AdmissionError::NoPath)));
}

#[test]
fn test_plan_refuses_a_cycle() {
    let a_std = BarType::Standard {
        instrument_id: InstrumentId { id: 1 },
        spec: spec(2, BarAggregation::Minute),
        aggregation_source: AggregationSource::Internal,
    };
    let b_std = BarType::Standard {
        instrument_id: InstrumentId { id: 1 },
        spec: spec(4, BarAggregation::Minute),
        aggregation_source: AggregationSource::Internal,
    };
    let a = composite(2, BarAggregation::Minute, b_std);
    let b = composite(4, BarAggregation::Minute, a_std);
    assert!(matches!(check_plan(&vec![a, b], source()), Err(AdmissionError::NoAcyclicPath)));
}

#[test]
fn test_decimal_notation() {
    assert_eq!(decimal(0), "0");
    assert_eq!(decimal(7), "7");
    assert_eq!(decimal(10), "10");
    assert_eq!(decimal(1_234_567_890), "1234567890");
    assert_eq!(decimal(u64::MAX), "18446744073709551615");
}

#[test]
fn test_source_error_messages() {
    assert_eq!(SourceError::Gap { index: 12 }.message(), "Historical source has a gap at 12");
    assert_eq!(
        SourceError::DuplicateOrOutOfOrder { index: 0 }.message(),
        "Historical source is duplicated or out of order at 0"
    );
    assert_eq!(SourceError::IncompleteCoverage.message(), "Historical source coverage is incomplete");
    assert_eq!(
        SourceError::UnsupportedSource.message(),
        "Historical source validation requires standard 1-MINUTE-LAST-EXTERNAL bars"
    );
    assert_eq!(
        SourceError::WrongVariant.message(),
        "Historical bar source response has wrong data variant"
    );
}

#[test]
fn test_admission_error_messages() {
    assert_eq!(
        AdmissionError::Source(SourceError::MissingLimit).message(),
        "Missing historical source limit"
    );
    assert_eq!(AdmissionError::Timer("clock gone".to_string()).message(), "clock gone");
    assert_eq!(
        AdmissionError::InvalidTimeout.message(),
        "historical_bars_timeout_ms must be a positive integer"
    );
    assert_eq!(
        AdmissionError::NoPath.message(),
        "Historical aggregate target has no path to the original source"
    );
}
