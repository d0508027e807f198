use nautilus_history::engine::{
    CompletionStep, DataEngine, EngineAction, HistoricalBarTimer, TimerDecision,
    HISTORICAL_BAR_DEFAULT_TIMEOUT_MS,
};
use nautilus_history::error::{AdmissionError, SourceError};
use nautilus_history::messages::{
    ParamValue, Params, RequestBarAggregation, RequestBars, RequestCommand, RequestScope,
};
use nautilus_history::model::{
    AggregationSource, Bar, BarAggregation, BarSpecification, BarType, ClientId, InstrumentId,
    Price, PriceType, Quantity, UUID4,
};
use nautilus_history::response::{BarsResponse, DataResponse, HistoricalBarsOutcome};
use nautilus_history::time::{NANOSECONDS_IN_MILLISECOND, NANOSECONDS_IN_MINUTE};

const START_NS: u64 = 1_735_689_600_000_000_000;
const DEFAULT_BUDGET_NS: u64 = HISTORICAL_BAR_DEFAULT_TIMEOUT_MS * NANOSECONDS_IN_MILLISECOND;

#[derive(Default)]
struct TestTimer {
    armed: Option<u64>,
    refuse: Option<String>,
    arms: Vec<u64>,
    cancels: usize,
}

impl HistoricalBarTimer for TestTimer {
    fn next_time_ns(&self) -> Option<u64> {
        self.armed
    }

    fn set_time_alert_ns(&mut self, alert_time_ns: u64) -> Result<(), String> {
        if let Some(e) = &self.refuse {
            return Err(e.clone());
        }
        self.armed = Some(alert_time_ns);
        self.arms.push(alert_time_ns);
        Ok(())
    }

    fn cancel_timer(&mut self) {
        self.armed = None;
        self.cancels += 1;
    }
}

fn spec(step: usize, aggregation: BarAggregation) -> BarSpecification {
    BarSpecification { step, aggregation, price_type: PriceType::Last }
}

fn minute() -> BarType {
    BarType::Standard {
        instrument_id: InstrumentId { id: 1 },
        spec: spec(1, BarAggregation::Minute),
        aggregation_source: AggregationSource::External,
    }
}

fn five_minute() -> BarType {
    BarType::Composite {
        instrument_id: InstrumentId { id: 1 },
        spec: spec(5, BarAggregation::Minute),
        aggregation_source: AggregationSource::Internal,
        composite_step: 1,
        composite_aggregation: BarAggregation::Minute,
        composite_aggregation_source: AggregationSource::External,
    }
}

fn client() -> ClientId {
    ClientId { id: 1 }
}

fn request(id: u128) -> RequestBars {
    RequestBars {
        bar_type: minute(),
        start: Some((START_NS - NANOSECONDS_IN_MINUTE) as i128),
        end: Some((START_NS + 6 * NANOSECONDS_IN_MINUTE - NANOSECONDS_IN_MILLISECOND) as i128),
        limit: Some(7),
        client_id: Some(client()),
        request_id: UUID4 { value: id },
        ts_init: START_NS,
        params: None,
        scope: None,
        aggregation_plan: None,
    }
}

fn bar(bar_type: BarType, index: u64) -> Bar {
    let ts = START_NS + index * NANOSECONDS_IN_MINUTE - NANOSECONDS_IN_MILLISECOND;
    let p = |v: i64| Price { raw: v * 10_000_000, precision: 2 };
    Bar::new(bar_type, p(10_000), p(10_100), p(9_900), p(10_050), Quantity { raw: 1_000, precision: 3 }, ts, ts)
}

fn page(id: u128, indices: std::ops::Range<u64>) -> BarsResponse {
    BarsResponse::new(
        UUID4 { value: id },
        client(),
        minute(),
        indices.map(|i| bar(minute(), i)).collect(),
        Some(1),
        Some(2),
        START_NS,
        None,
    )
}

fn capture(engine: &mut DataEngine, timer: &mut TestTimer, request: &RequestBars) -> Result<(), AdmissionError> {
    engine.capture_historical_bar_source(
        &RequestCommand::Bars(request.clone()),
        client(),
        START_NS,
        true,
        timer,
    )
}

fn sent(actions: &[EngineAction]) -> Vec<(UUID4, &DataResponse)> {
    actions
        .iter()
        .filter_map(|a| match a {
            EngineAction::SendResponse { request_id, response } => Some((*request_id, response)),
            _ => None,
        })
        .collect()
}

fn cleaned(actions: &[EngineAction]) -> Vec<UUID4> {
    actions
        .iter()
        .filter_map(|a| match a {
            EngineAction::CleanupRequestBarAggregators { request_id } => Some(*request_id),
            _ => None,
        })
        .collect()
}

#[test]
fn test_engine_complete_page_passes_and_finishes_validated() {
    let mut engine = DataEngine::new(true);
    let mut timer = TestTimer::default();
    let mut actions = Vec::new();
    capture(&mut engine, &mut timer, &request(1)).unwrap();
    assert_eq!(timer.arms, vec![START_NS + DEFAULT_BUDGET_NS]);
    assert_eq!(engine.earliest_historical_bar_deadline(), Some(START_NS + DEFAULT_BUDGET_NS));
    let source = engine.original_historical_bar_source(UUID4 { value: 1 }).unwrap();
    assert_eq!(source.expected_count, 7);

    let mut response = DataResponse::Bars(page(1, 0..7));
    assert!(engine.validate_historical_bar_response(&mut response, START_NS + 1, &mut timer, &mut actions));
    assert!(actions.is_empty());
    let DataResponse::Bars(bars) = &response else { panic!("still bars") };
    // The response now carries the original coverage, not the echoed one.
    assert_eq!(bars.start, Some(START_NS - NANOSECONDS_IN_MINUTE));
    assert_eq!(bars.end, Some(START_NS + 6 * NANOSECONDS_IN_MINUTE - NANOSECONDS_IN_MILLISECOND));
    assert!(bars.historical_outcome.is_none());

    let step = engine.complete_historical_bar_response(&response, START_NS + 2, &mut timer, &mut actions);
    assert!(matches!(step, CompletionStep::Aggregate { request_id: UUID4 { value: 1 }, has_plan: false }));
    assert!(engine.finish_historical_bar_response(&mut response, START_NS + 3, &mut timer, &mut actions));
    let DataResponse::Bars(bars) = &response else { panic!("still bars") };
    assert!(matches!(&bars.historical_outcome, Some(HistoricalBarsOutcome::Validated { aggregates }) if aggregates.is_empty()));
    assert_eq!(bars.data.len(), 7);

    engine.retire_historical_bar_deadline(&UUID4 { value: 1 }, &mut timer);
    assert_eq!(engine.earliest_historical_bar_deadline(), None);
    assert_eq!(timer.cancels, 1);
    engine.discard_historical_bar_sources(UUID4 { value: 1 }, &mut timer, &mut actions);
    assert!(engine.original_historical_bar_source(UUID4 { value: 1 }).is_none());
    assert_eq!(cleaned(&actions), vec![UUID4 { value: 1 }]);
}

#[test]
fn test_engine_invalid_page_rejects_the_source_tree() {
    let mut engine = DataEngine::new(true);
    let mut timer = TestTimer::default();
    let mut actions = Vec::new();
    let mut req = request(2);
    let mut params = Params::new();
    params.insert("venue_hint".to_string(), ParamValue::Text("spot".to_string()));
    req.params = Some(params);
    capture(&mut engine, &mut timer, &req).unwrap();

    let mut response = DataResponse::Bars(page(2, 0..6));
    let original_len = 6;
    assert!(!engine.validate_historical_bar_response(&mut response, START_NS + 5, &mut timer, &mut actions));
    let DataResponse::Bars(untouched) = &response else { panic!("still bars") };
    assert_eq!(untouched.data.len(), original_len);

    assert!(engine.original_historical_bar_source(UUID4 { value: 2 }).is_none());
    assert_eq!(engine.earliest_historical_bar_deadline(), None);
    assert_eq!(cleaned(&actions), vec![UUID4 { value: 2 }]);
    let delivered = sent(&actions);
    assert_eq!(delivered.len(), 1);
    assert_eq!(delivered[0].0, UUID4 { value: 2 });
    let DataResponse::Bars(rejection) = delivered[0].1 else { panic!("a bars response") };
    assert!(rejection.data.is_empty());
    assert_eq!(rejection.ts_init, START_NS + 5);
    assert_eq!(rejection.start, Some(START_NS - NANOSECONDS_IN_MINUTE));
    let expected = SourceError::IncompleteCoverage.message();
    assert!(matches!(&rejection.historical_outcome,
        Some(HistoricalBarsOutcome::Failed { error, aggregate_bar_types }) if *error == expected && aggregate_bar_types.is_empty()));
    let params = rejection.params.as_ref().unwrap();
    assert_eq!(params.entries[0].key, "venue_hint");
    assert!(matches!(params.get("historical_bar_source_error"), Some(ParamValue::Text(t)) if *t == expected));
}

#[test]
fn test_engine_refuses_client_supplied_failures_and_unknown_pages() {
    let mut engine = DataEngine::new(true);
    let mut timer = TestTimer::default();
    let mut actions = Vec::new();
    let mut not_captured = DataResponse::Bars(page(3, 0..7));
    // A bars page of no captured source is refused; other data proceeds.
    assert!(!engine.validate_historical_bar_response(&mut not_captured, START_NS, &mut timer, &mut actions));
    let mut other = DataResponse::Other { correlation_id: UUID4 { value: 3 }, record_count: Some(1) };
    assert!(engine.validate_historical_bar_response(&mut other, START_NS, &mut timer, &mut actions));
    assert!(actions.is_empty());
}

#[test]
fn test_engine_without_validation_clears_echoed_outcomes() {
    let mut engine = DataEngine::new(false);
    let mut timer = TestTimer::default();
    let mut actions = Vec::new();
    assert!(!engine.validate_historical_bars());
    // Nothing is captured when validation is off.
    capture(&mut engine, &mut timer, &request(4)).unwrap();
    assert!(engine.original_historical_bar_source(UUID4 { value: 4 }).is_none());
    assert!(timer.arms.is_empty());
    let mut bars = page(4, 0..2);
    bars.historical_outcome = Some(HistoricalBarsOutcome::Failed {
        error: "client echoed".to_string(),
        aggregate_bar_types: Vec::new(),
    });
    let mut response = DataResponse::Bars(bars);
    assert!(engine.validate_historical_bar_response(&mut response, START_NS, &mut timer, &mut actions));
    let DataResponse::Bars(bars) = &response else { panic!("still bars") };
    assert!(bars.historical_outcome.is_none());
    assert_eq!(bars.data.len(), 2);
    let step = engine.complete_historical_bar_response(&response, START_NS, &mut timer, &mut actions);
    assert!(matches!(step, CompletionStep::Finished(true)));
}

#[test]
fn test_engine_expiry_fails_the_original_request() {
    let mut engine = DataEngine::new(true);
    let mut timer = TestTimer::default();
    let mut actions = Vec::new();
    capture(&mut engine, &mut timer, &request(5)).unwrap();
    let expires = START_NS + DEFAULT_BUDGET_NS;
    assert!(!engine.historical_bar_deadline_has_elapsed(UUID4 { value: 5 }, expires - 1));
    assert!(engine.historical_bar_deadline_has_elapsed(UUID4 { value: 5 }, expires));

    engine.expire_historical_bar_requests(expires - 1, &mut timer, &mut actions);
    assert!(actions.is_empty());
    assert!(engine.original_historical_bar_source(UUID4 { value: 5 }).is_some());

    engine.expire_historical_bar_requests(expires, &mut timer, &mut actions);
    assert!(engine.original_historical_bar_source(UUID4 { value: 5 }).is_none());
    assert_eq!(engine.earliest_historical_bar_deadline(), None);
    assert_eq!(timer.armed, None);
    let delivered = sent(&actions);
    assert_eq!(delivered.len(), 1);
    let DataResponse::BarsRequestFailed(failure) = delivered[0].1 else { panic!("a failure") };
    assert_eq!(failure.error, "Historical bar request timed out after 30000 ms");
    assert_eq!(failure.client_id, Some(client()));
    assert_eq!(failure.request.request_id, UUID4 { value: 5 });
    assert_eq!(failure.ts_init, expires);
    assert!(failure.aggregate_bar_types.is_empty());
}

#[test]
fn test_engine_expired_page_does_not_proceed() {
    let mut engine = DataEngine::new(true);
    let mut timer = TestTimer::default();
    let mut actions = Vec::new();
    capture(&mut engine, &mut timer, &request(6)).unwrap();
    let mut response = DataResponse::Bars(page(6, 0..7));
    let late = START_NS + DEFAULT_BUDGET_NS;
    assert!(!engine.validate_historical_bar_response(&mut response, late, &mut timer, &mut actions));
    assert!(engine.original_historical_bar_source(UUID4 { value: 6 }).is_none());
    assert_eq!(sent(&actions).len(), 1);
}

#[test]
fn test_engine_closed_scope_releases_without_delivery() {
    let mut engine = DataEngine::new(true);
    let mut timer = TestTimer::default();
    let mut actions = Vec::new();
    let mut req = request(7);
    req.scope = Some(RequestScope { id: 70 });
    capture(&mut engine, &mut timer, &req).unwrap();
    assert!(!engine.scope_is_inactive(&req.scope));
    engine.close_request_scope(70);
    assert!(engine.scope_is_inactive(&req.scope));
    assert!(!engine.scope_is_inactive(&None));
    engine.expire_historical_bar_requests(START_NS + 1, &mut timer, &mut actions);
    assert!(engine.original_historical_bar_source(UUID4 { value: 7 }).is_none());
    assert!(sent(&actions).is_empty());
    assert_eq!(cleaned(&actions), vec![UUID4 { value: 7 }]);
    // A closed scope cannot capture again.
    let mut again = request(8);
    again.scope = Some(RequestScope { id: 70 });
    assert!(matches!(capture(&mut engine, &mut timer, &again), Err(AdmissionError::ScopeInactive)));
}

#[test]
fn test_engine_timeout_parameter() {
    let mut engine = DataEngine::new(true);
    let mut timer = TestTimer::default();
    let mut req = request(9);
    let mut params = Params::new();
    params.insert("historical_bars_timeout_ms".to_string(), ParamValue::Unsigned(5));
    req.params = Some(params);
    capture(&mut engine, &mut timer, &req).unwrap();
    assert_eq!(engine.earliest_historical_bar_deadline(), Some(START_NS + 5 * NANOSECONDS_IN_MILLISECOND));

    for bad in [ParamValue::Unsigned(0), ParamValue::Text("5".to_string()), ParamValue::Negative(-5)] {
        let mut req = request(10);
        let mut params = Params::new();
        params.insert("historical_bars_timeout_ms".to_string(), bad);
        req.params = Some(params);
        assert!(matches!(capture(&mut engine, &mut timer, &req), Err(AdmissionError::InvalidTimeout)));
    }
    let mut req = request(10);
    let mut params = Params::new();
    params.insert("historical_bars_timeout_ms".to_string(), ParamValue::Unsigned(u64::MAX));
    req.params = Some(params);
    assert!(matches!(capture(&mut engine, &mut timer, &req), Err(AdmissionError::TimeoutOverflowsNanoseconds)));
    let mut req = request(10);
    let mut params = Params::new();
    params.insert("historical_bars_timeout_ms".to_string(), ParamValue::Unsigned(u64::MAX / NANOSECONDS_IN_MILLISECOND));
    req.params = Some(params);
    assert!(matches!(capture(&mut engine, &mut timer, &req), Err(AdmissionError::DeadlineOverflows)));
    assert!(engine.original_historical_bar_source(UUID4 { value: 10 }).is_none());
}

#[test]
fn test_engine_admission_refusals() {
    let mut engine = DataEngine::new(true);
    let mut timer = TestTimer::default();
    let no_endpoint = engine.capture_historical_bar_source(
        &RequestCommand::Bars(request(11)),
        client(),
        START_NS,
        false,
        &mut timer,
    );
    assert!(matches!(no_endpoint, Err(AdmissionError::MissingCommandEndpoint)));
    let mut unbounded = request(11);
    unbounded.limit = None;
    assert!(matches!(
        capture(&mut engine, &mut timer, &unbounded),
        Err(AdmissionError::Source(SourceError::MissingLimit))
    ));
    capture(&mut engine, &mut timer, &request(11)).unwrap();
    assert!(matches!(capture(&mut engine, &mut timer, &request(11)), Err(AdmissionError::AlreadyActive)));
    // Other commands pass untouched.
    assert!(engine
        .capture_historical_bar_source(&RequestCommand::Other { request_id: UUID4 { value: 12 } }, client(), START_NS, true, &mut timer)
        .is_ok());
}

#[test]
fn test_engine_timer_refusal_fails_capture() {
    let mut engine = DataEngine::new(true);
    let mut timer = TestTimer { refuse: Some("clock unavailable".to_string()), ..TestTimer::default() };
    let res = capture(&mut engine, &mut timer, &request(13));
    assert!(matches!(res, Err(AdmissionError::Timer(e)) if e == "clock unavailable"));
    assert_eq!(engine.earliest_historical_bar_deadline(), None);
    assert!(engine.original_historical_bar_source(UUID4 { value: 13 }).is_none());
}

#[test]
fn test_engine_timer_decision() {
    let mut engine = DataEngine::new(true);
    let mut timer = TestTimer::default();
    assert_eq!(engine.historical_bar_timer_decision(START_NS, Some(START_NS + 1)), TimerDecision::Cancel);
    capture(&mut engine, &mut timer, &request(14)).unwrap();
    let deadline = START_NS + DEFAULT_BUDGET_NS;
    assert_eq!(engine.historical_bar_timer_decision(START_NS, Some(deadline)), TimerDecision::Keep);
    assert_eq!(engine.historical_bar_timer_decision(START_NS, Some(START_NS + 1)), TimerDecision::Keep);
    assert_eq!(
        engine.historical_bar_timer_decision(START_NS, Some(deadline + 1)),
        TimerDecision::Arm { alert_time_ns: deadline }
    );
    assert_eq!(
        engine.historical_bar_timer_decision(START_NS, Some(START_NS)),
        TimerDecision::Arm { alert_time_ns: deadline }
    );
    assert_eq!(engine.historical_bar_timer_decision(START_NS, None), TimerDecision::Arm { alert_time_ns: deadline });
    assert!(engine.maintain_historical_bar_timeout(START_NS, &mut timer).is_ok());
    assert_eq!(timer.arms, vec![deadline]);
}

#[test]
fn test_engine_rearm_failure_fails_every_pending_request() {
    let mut engine = DataEngine::new(true);
    let mut timer = TestTimer::default();
    let mut actions = Vec::new();
    capture(&mut engine, &mut timer, &request(15)).unwrap();
    let mut late = request(16);
    let mut params = Params::new();
    params.insert("historical_bars_timeout_ms".to_string(), ParamValue::Unsigned(60_000));
    late.params = Some(params);
    capture(&mut engine, &mut timer, &late).unwrap();
    timer.refuse = Some("lost".to_string());
    engine.expire_historical_bar_requests(START_NS + DEFAULT_BUDGET_NS, &mut timer, &mut actions);
    assert_eq!(engine.earliest_historical_bar_deadline(), None);
    let errors: Vec<String> = sent(&actions)
        .iter()
        .map(|(_, r)| match r {
            DataResponse::BarsRequestFailed(f) => f.error.clone(),
            _ => String::new(),
        })
        .collect();
    assert_eq!(
        errors,
        vec![
            "Historical bar request timed out after 30000 ms".to_string(),
            "Unable to schedule historical request deadline: lost".to_string()
        ]
    );
}

#[test]
fn test_engine_pipeline_children_share_the_parent_source() {
    let mut engine = DataEngine::new(true);
    let mut timer = TestTimer::default();
    let mut actions = Vec::new();
    capture(&mut engine, &mut timer, &request(20)).unwrap();
    engine.insert_request_pipeline_parent(UUID4 { value: 21 }, UUID4 { value: 20 });
    let mut leg = request(21);
    leg.end = Some((START_NS + 2 * NANOSECONDS_IN_MINUTE - NANOSECONDS_IN_MILLISECOND) as i128);
    capture(&mut engine, &mut timer, &leg).unwrap();
    assert_eq!(engine.historical_bar_parent_id(UUID4 { value: 21 }), Some(UUID4 { value: 20 }));
    assert_eq!(engine.historical_bar_parent_id(UUID4 { value: 20 }), None);
    assert!(engine.historical_bar_source_is_within(UUID4 { value: 21 }, UUID4 { value: 20 }));
    assert!(!engine.historical_bar_source_is_within(UUID4 { value: 20 }, UUID4 { value: 21 }));
    assert_eq!(
        engine.original_historical_bar_source(UUID4 { value: 21 }).unwrap().request_id,
        UUID4 { value: 20 }
    );
    // The leg has no deadline of its own.
    assert_eq!(timer.arms.len(), 1);

    // A partial leg passes on its own; its parent is checked once complete.
    let mut leg_page = DataResponse::Bars(page(21, 0..3));
    assert!(engine.validate_historical_bar_response(&mut leg_page, START_NS + 1, &mut timer, &mut actions));
    engine.insert_request_pipeline_parent_request(UUID4 { value: 20 }, RequestCommand::Bars(request(20)), 2);
    engine.push_request_pipeline_response(UUID4 { value: 20 }, leg_page);
    let next = DataResponse::Bars(page(20, 3..7));
    assert!(engine.historical_bar_pipeline_has_capacity(UUID4 { value: 20 }, &next, START_NS + 2, &mut timer, &mut actions));
    let too_many = DataResponse::Bars(page(20, 0..5));
    let legs = vec![DataResponse::Bars(page(20, 3..7)), DataResponse::Bars(page(21, 0..3))];
    assert!(engine.validate_historical_bar_pipeline_legs(UUID4 { value: 20 }, &legs, START_NS + 3, &mut timer, &mut actions));
    assert!(actions.is_empty());

    assert!(!engine.historical_bar_pipeline_has_capacity(UUID4 { value: 20 }, &too_many, START_NS + 4, &mut timer, &mut actions));
    // The whole tree is released and the original is answered once.
    assert!(engine.original_historical_bar_source(UUID4 { value: 21 }).is_none());
    assert!(engine.original_historical_bar_source(UUID4 { value: 20 }).is_none());
    let mut released = cleaned(&actions);
    released.sort_by_key(|u| u.value);
    assert_eq!(released, vec![UUID4 { value: 20 }, UUID4 { value: 21 }]);
    let delivered = sent(&actions);
    assert_eq!(delivered.len(), 1);
    assert_eq!(delivered[0].0, UUID4 { value: 20 });
}

#[test]
fn test_engine_pipeline_union_with_a_repeat_is_refused() {
    let mut engine = DataEngine::new(true);
    let mut timer = TestTimer::default();
    let mut actions = Vec::new();
    capture(&mut engine, &mut timer, &request(30)).unwrap();
    let legs = vec![
        DataResponse::Bars(page(30, 0..4)),
        DataResponse::Bars(page(30, 3..6)),
    ];
    assert!(!engine.validate_historical_bar_pipeline_legs(UUID4 { value: 30 }, &legs, START_NS, &mut timer, &mut actions));
    assert!(engine.original_historical_bar_source(UUID4 { value: 30 }).is_none());
    assert_eq!(sent(&actions).len(), 1);

    capture(&mut engine, &mut timer, &request(31)).unwrap();
    let mut actions = Vec::new();
    let wrong = vec![DataResponse::Other { correlation_id: UUID4 { value: 31 }, record_count: None }];
    assert!(!engine.validate_historical_bar_pipeline_legs(UUID4 { value: 31 }, &wrong, START_NS, &mut timer, &mut actions));
    let DataResponse::Bars(rejection) = sent(&actions)[0].1 else { panic!("a bars response") };
    assert!(matches!(&rejection.historical_outcome,
        Some(HistoricalBarsOutcome::Failed { error, .. }) if error == "Historical pipeline has wrong source variant"));
}

#[test]
fn test_engine_pipeline_leg_order_does_not_decide() {
    let mut timer = TestTimer::default();
    let accepted = [
        vec![DataResponse::Bars(page(32, 0..3)), DataResponse::Bars(page(32, 3..7))],
        vec![DataResponse::Bars(page(32, 3..7)), DataResponse::Bars(page(32, 0..3))],
    ];
    for legs in &accepted {
        let mut engine = DataEngine::new(true);
        let mut actions = Vec::new();
        capture(&mut engine, &mut timer, &request(32)).unwrap();
        assert!(engine.validate_historical_bar_pipeline_legs(UUID4 { value: 32 }, legs, START_NS, &mut timer, &mut actions));
        assert!(actions.is_empty());
    }
    let refused = [
        vec![DataResponse::Bars(page(33, 0..4)), DataResponse::Bars(page(33, 3..7))],
        vec![DataResponse::Bars(page(33, 3..7)), DataResponse::Bars(page(33, 0..4))],
    ];
    for legs in &refused {
        let mut engine = DataEngine::new(true);
        let mut actions = Vec::new();
        capture(&mut engine, &mut timer, &request(33)).unwrap();
        assert!(!engine.validate_historical_bar_pipeline_legs(UUID4 { value: 33 }, legs, START_NS, &mut timer, &mut actions));
        assert_eq!(sent(&actions).len(), 1);
    }
}

#[test]
fn test_engine_frozen_plan_collects_request_local_output() {
    let mut engine = DataEngine::new(true);
    let mut timer = TestTimer::default();
    let mut actions = Vec::new();
    capture(&mut engine, &mut timer, &request(40)).unwrap();
    assert!(matches!(
        engine.freeze_historical_bar_aggregation(UUID4 { value: 41 }, None),
        Err(AdmissionError::NoOriginalSource)
    ));
    let plan = RequestBarAggregation { bar_types: vec![five_minute()], skip_first_non_full_bar: false };
    engine.freeze_historical_bar_aggregation(UUID4 { value: 40 }, Some(plan)).unwrap();

    let mut response = DataResponse::Bars(page(40, 0..7));
    assert!(engine.validate_historical_bar_response(&mut response, START_NS + 1, &mut timer, &mut actions));
    let step = engine.complete_historical_bar_response(&response, START_NS + 1, &mut timer, &mut actions);
    assert!(matches!(step, CompletionStep::Aggregate { has_plan: true, .. }));
    let target = five_minute().standard();
    assert!(engine.record_historical_bar_output(UUID4 { value: 40 }, bar(target, 5)));
    assert!(!engine.record_historical_bar_output(UUID4 { value: 99 }, bar(target, 5)));
    assert!(engine.finish_historical_bar_response(&mut response, START_NS + 2, &mut timer, &mut actions));
    let DataResponse::Bars(bars) = &response else { panic!("still bars") };
    let Some(HistoricalBarsOutcome::Validated { aggregates }) = &bars.historical_outcome else { panic!("validated") };
    assert_eq!(aggregates.len(), 1);
    assert_eq!(aggregates[0].bar_type, target);
    assert_eq!(aggregates[0].data, vec![bar(target, 5)]);
}

#[test]
fn test_engine_output_error_rejects_at_finish() {
    let mut engine = DataEngine::new(true);
    let mut timer = TestTimer::default();
    let mut actions = Vec::new();
    capture(&mut engine, &mut timer, &request(50)).unwrap();
    let plan = RequestBarAggregation { bar_types: vec![five_minute()], skip_first_non_full_bar: false };
    engine.freeze_historical_bar_aggregation(UUID4 { value: 50 }, Some(plan)).unwrap();
    assert!(!engine.record_historical_bar_output(UUID4 { value: 50 }, bar(minute(), 1)));
    let mut response = DataResponse::Bars(page(50, 0..7));
    assert!(!engine.finish_historical_bar_response(&mut response, START_NS + 2, &mut timer, &mut actions));
    assert!(engine.original_historical_bar_source(UUID4 { value: 50 }).is_none());
    let DataResponse::Bars(rejection) = sent(&actions)[0].1 else { panic!("a bars response") };
    assert!(matches!(&rejection.historical_outcome,
        Some(HistoricalBarsOutcome::Failed { error, aggregate_bar_types })
            if error == "Native aggregate output has an unrequested BarType"
                && *aggregate_bar_types == vec![five_minute().standard()]));
}

#[test]
fn test_engine_plan_refusal_keeps_the_source() {
    let mut engine = DataEngine::new(true);
    let mut timer = TestTimer::default();
    capture(&mut engine, &mut timer, &request(60)).unwrap();
    let plan = RequestBarAggregation { bar_types: vec![minute()], skip_first_non_full_bar: false };
    assert!(matches!(
        engine.freeze_historical_bar_aggregation(UUID4 { value: 60 }, Some(plan)),
        Err(AdmissionError::NoAcyclicPath)
    ));
    assert!(engine.original_historical_bar_source(UUID4 { value: 60 }).is_some());
}

#[test]
fn test_engine_unadmitted_request_is_answered_with_its_intent() {
    let mut engine = DataEngine::new(true);
    let mut timer = TestTimer::default();
    let mut actions = Vec::new();
    let req = request(70);
    engine.reject_unadmitted_historical_bar_request(
        &RequestCommand::Bars(req),
        Some(client()),
        "Missing historical source limit",
        START_NS,
        &mut timer,
        &mut actions,
    );
    let delivered = sent(&actions);
    assert_eq!(delivered.len(), 1);
    let DataResponse::BarsRequestFailed(failure) = delivered[0].1 else { panic!("a failure") };
    assert_eq!(failure.error, "Missing historical source limit");
    assert_eq!(failure.request.request_id, UUID4 { value: 70 });

    // A pipeline child of a captured original fails the original.
    let mut actions = Vec::new();
    capture(&mut engine, &mut timer, &request(71)).unwrap();
    engine.insert_request_pipeline_parent(UUID4 { value: 72 }, UUID4 { value: 71 });
    engine.reject_unadmitted_historical_bar_request(
        &RequestCommand::Bars(request(72)),
        None,
        "leg refused",
        START_NS,
        &mut timer,
        &mut actions,
    );
    assert!(engine.original_historical_bar_source(UUID4 { value: 71 }).is_none());
    let delivered = sent(&actions);
    assert_eq!(delivered.len(), 1);
    assert_eq!(delivered[0].0, UUID4 { value: 71 });
}

#[test]
fn test_engine_cyclic_ancestry_is_reported() {
    let mut engine = DataEngine::new(true);
    let mut timer = TestTimer::default();
    let mut actions = Vec::new();
    engine.insert_request_pipeline_parent(UUID4 { value: 80 }, UUID4 { value: 81 });
    engine.insert_time_range_pipeline_parent(UUID4 { value: 81 }, UUID4 { value: 80 });
    engine.reject_unadmitted_historical_bar_request(
        &RequestCommand::Bars(request(80)),
        Some(client()),
        "refused",
        START_NS,
        &mut timer,
        &mut actions,
    );
    let DataResponse::BarsRequestFailed(failure) = sent(&actions)[0].1 else { panic!("a failure") };
    assert_eq!(failure.error, "refused; historical pipeline ancestry is cyclic");
    assert_eq!(engine.historical_bar_parent_id(UUID4 { value: 80 }), None);
}

#[test]
fn test_engine_discard_all_releases_everything() {
    let mut engine = DataEngine::new(true);
    let mut timer = TestTimer::default();
    let mut actions = Vec::new();
    capture(&mut engine, &mut timer, &request(90)).unwrap();
    capture(&mut engine, &mut timer, &request(91)).unwrap();
    engine.insert_request_pipeline_parent(UUID4 { value: 92 }, UUID4 { value: 91 });
    let mut leg = request(92);
    leg.end = Some((START_NS + NANOSECONDS_IN_MINUTE) as i128);
    capture(&mut engine, &mut timer, &leg).unwrap();
    engine.insert_time_range_pipeline_request(UUID4 { value: 93 }, RequestCommand::Other { request_id: UUID4 { value: 93 } });
    engine.discard_all_historical_bar_sources(&mut timer, &mut actions);
    for id in 90..94 {
        assert!(engine.original_historical_bar_source(UUID4 { value: id }).is_none());
    }
    assert_eq!(engine.earliest_historical_bar_deadline(), None);
    assert_eq!(timer.armed, None);
    let mut released = cleaned(&actions);
    released.sort_by_key(|u| u.value);
    assert_eq!(released, vec![UUID4 { value: 90 }, UUID4 { value: 91 }, UUID4 { value: 92 }]);
    assert!(sent(&actions).is_empty());
}

#[test]
fn test_engine_release_leaves_nothing_under_the_parent() {
    let mut engine = DataEngine::new(true);
    let mut timer = TestTimer::default();
    let mut actions = Vec::new();
    capture(&mut engine, &mut timer, &request(100)).unwrap();
    engine.insert_request_pipeline_parent(UUID4 { value: 101 }, UUID4 { value: 100 });
    engine.insert_time_range_pipeline_parent(UUID4 { value: 101 }, UUID4 { value: 102 });
    assert_eq!(engine.historical_bar_parent_id(UUID4 { value: 101 }), Some(UUID4 { value: 100 }));
    assert!(engine.historical_bar_source_is_within(UUID4 { value: 101 }, UUID4 { value: 100 }));
    engine.discard_historical_bar_sources(UUID4 { value: 100 }, &mut timer, &mut actions);
    // The link to the released parent is gone; the other link of the request stays.
    assert_eq!(engine.historical_bar_parent_id(UUID4 { value: 101 }), Some(UUID4 { value: 102 }));
    assert!(!engine.historical_bar_source_is_within(UUID4 { value: 101 }, UUID4 { value: 100 }));
    assert!(engine.historical_bar_source_is_within(UUID4 { value: 100 }, UUID4 { value: 100 }));
    assert_eq!(cleaned(&actions), vec![UUID4 { value: 100 }]);
}

#[test]
fn test_engine_expiry_leaves_unrelated_requests_and_repeats_quietly() {
    let mut engine = DataEngine::new(true);
    let mut timer = TestTimer::default();
    let mut actions = Vec::new();
    capture(&mut engine, &mut timer, &request(110)).unwrap();
    let mut later = request(111);
    let mut params = Params::new();
    params.insert("historical_bars_timeout_ms".to_string(), ParamValue::Unsigned(60_000));
    later.params = Some(params);
    capture(&mut engine, &mut timer, &later).unwrap();
    let now = START_NS + DEFAULT_BUDGET_NS;
    engine.expire_historical_bar_requests(now, &mut timer, &mut actions);
    // The expired request is released before it is answered, once.
    assert_eq!(actions.len(), 2);
    assert!(matches!(actions[0], EngineAction::CleanupRequestBarAggregators { request_id: UUID4 { value: 110 } }));
    assert!(matches!(&actions[1], EngineAction::SendResponse { request_id: UUID4 { value: 110 }, .. }));
    // The unrelated request stays pending with its own deadline, and the alert moves to it.
    assert!(engine.original_historical_bar_source(UUID4 { value: 111 }).is_some());
    assert_eq!(engine.earliest_historical_bar_deadline(), Some(START_NS + 60_000 * NANOSECONDS_IN_MILLISECOND));
    assert_eq!(timer.armed, Some(START_NS + 60_000 * NANOSECONDS_IN_MILLISECOND));
    // A second pass at the same time does nothing.
    engine.expire_historical_bar_requests(now, &mut timer, &mut actions);
    assert_eq!(actions.len(), 2);
    assert!(engine.original_historical_bar_source(UUID4 { value: 111 }).is_some());
}

#[test]
fn test_engine_expiry_without_validation_leaves_the_alert_alone() {
    let mut engine = DataEngine::new(false);
    let mut timer = TestTimer { armed: Some(7), ..TestTimer::default() };
    let mut actions = Vec::new();
    engine.expire_historical_bar_requests(u64::MAX, &mut timer, &mut actions);
    assert_eq!(timer.armed, Some(7));
    assert!(timer.arms.is_empty());
    assert_eq!(timer.cancels, 0);
    assert!(actions.is_empty());
}

#[test]
fn test_engine_settle_deadline_on_the_alert_result() {
    let mut engine = DataEngine::new(true);
    let mut timer = TestTimer::default();
    capture(&mut engine, &mut timer, &request(120)).unwrap();
    assert!(engine.settle_historical_bar_deadline(UUID4 { value: 120 }, Ok(()), &mut timer).is_ok());
    assert_eq!(engine.earliest_historical_bar_deadline(), Some(START_NS + DEFAULT_BUDGET_NS));
    let refused = engine.settle_historical_bar_deadline(UUID4 { value: 120 }, Err("no clock".to_string()), &mut timer);
    assert!(matches!(refused, Err(AdmissionError::Timer(e)) if e == "no clock"));
    assert_eq!(engine.earliest_historical_bar_deadline(), None);
}

#[test]
fn test_engine_settle_expiry_on_the_alert_result() {
    let mut engine = DataEngine::new(true);
    let mut timer = TestTimer::default();
    let mut actions = Vec::new();
    capture(&mut engine, &mut timer, &request(130)).unwrap();
    engine.settle_historical_bar_expiry(Ok(()), START_NS, &mut timer, &mut actions);
    assert!(actions.is_empty());
    assert!(engine.original_historical_bar_source(UUID4 { value: 130 }).is_some());
    engine.settle_historical_bar_expiry(Err("lost".to_string()), START_NS, &mut timer, &mut actions);
    assert!(engine.original_historical_bar_source(UUID4 { value: 130 }).is_none());
    assert_eq!(cleaned(&actions), vec![UUID4 { value: 130 }]);
    let DataResponse::BarsRequestFailed(failure) = sent(&actions)[0].1 else { panic!("a failure") };
    assert_eq!(failure.error, "Unable to schedule historical request deadline: lost");
}

#[test]
fn test_engine_settle_aggregation_on_the_preparation_result() {
    let mut engine = DataEngine::new(true);
    let mut timer = TestTimer::default();
    let mut actions = Vec::new();
    capture(&mut engine, &mut timer, &request(140)).unwrap();
    assert!(engine.settle_historical_bar_aggregation(UUID4 { value: 140 }, Ok(()), START_NS, &mut timer, &mut actions));
    assert!(actions.is_empty());
    assert!(!engine.settle_historical_bar_aggregation(
        UUID4 { value: 140 },
        Err("aggregator already running".to_string()),
        START_NS,
        &mut timer,
        &mut actions,
    ));
    assert!(engine.original_historical_bar_source(UUID4 { value: 140 }).is_none());
    let DataResponse::Bars(rejection) = sent(&actions)[0].1 else { panic!("a bars response") };
    assert!(matches!(&rejection.historical_outcome,
        Some(HistoricalBarsOutcome::Failed { error, .. }) if error == "aggregator already running"));
}
