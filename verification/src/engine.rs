//! The historical-bar bookkeeping of the data engine: original deadlines, captured sources and
//! their pipeline ancestry, and the decisions that retire, reject and complete requests.
//!
//! The engine's clock reading is passed in as `now`; the shared deadline alert is driven through
//! a [`HistoricalBarTimer`]; responses to deliver and aggregators to release are returned as
//! [`EngineAction`]s for the caller to perform, in order.

use std::collections::{HashMap, HashSet};

use vstd::prelude::*;
use vstd::std_specs::iter::IteratorSpec;

use crate::idset::{id_set_contents, id_set_insert, id_set_new};
use crate::messages::RequestBars;
use crate::model::{BarType, ClientId, UUID4};
use crate::error::{decimal, decimal_digits, AdmissionError};
use crate::time::NANOSECONDS_IN_MILLISECOND;
use crate::messages::{
    param_insert, param_lookup, params_view, ParamValue, ParamValueView, Params, RequestBarAggregation,
    RequestBarsView, RequestCommand, RequestScope,
};
use crate::outputs::plan_standards;
use crate::response::{
    BarsResponse, BarsResponseView, DataResponse, DataResponseView, HistoricalBarsOutcome,
    HistoricalBarsOutcomeView, HistoricalBarsRequestFailure, HistoricalBarsRequestFailureView,
};
use crate::error::SourceError;
use crate::outputs::HistoricalBarOutputs;
use crate::plan::{check_plan, plan_check};
use crate::source::{spec_coverage, HistoricalBarSource};

verus! {

broadcast use vstd::std_specs::hash::group_hash_axioms;

/// The original admitted intent and its engine-clock budget, shared by its whole source tree.
#[derive(Debug)]
pub struct HistoricalBarDeadline {
    pub request: RequestBars,
    pub client_id: ClientId,
    pub expires_at: u64,
    pub timeout_ms: u64,
}

/// The engine's shared historical deadline alert, as the engine's clock keeps it.
///
/// Whether arming succeeds is up to the clock: the engine's decisions hold whatever it reports.
/// What every implementation owes is that the alert reads back as it was last left: armed at
/// the time of the last successful arming, or disarmed after a cancel.
pub trait HistoricalBarTimer {
    /// When the alert fires next, if it is armed. Each implementation says how it reads its
    /// alert; this default reads a disarmed one.
    closed spec fn next_alert(&self) -> Option<u64> {
        None
    }

    /// When the armed alert fires next, if it is armed.
    fn next_time_ns(&self) -> (r: Option<u64>)
        ensures
            r == self.next_alert(),
    ;

    /// Arms the alert at `alert_time_ns`, replacing an armed one.
    fn set_time_alert_ns(&mut self, alert_time_ns: u64) -> (r: Result<(), String>)
        ensures
            r is Ok ==> final(self).next_alert() == Some(alert_time_ns),
    ;

    /// Disarms the alert.
    fn cancel_timer(&mut self)
        ensures
            final(self).next_alert() is None,
    ;
}

/// A shared deadline alert held in memory, as a simulated clock keeps it: it fires when it was
/// last armed, until it is cancelled, and arming it never fails.
pub struct HeldAlert {
    next: Option<u64>,
}

impl HeldAlert {
    /// A disarmed alert.
    pub fn new() -> (a: Self)
        ensures
            a.next_alert() is None,
    {
        HeldAlert { next: None }
    }
}

impl HistoricalBarTimer for HeldAlert {
    closed spec fn next_alert(&self) -> Option<u64> {
        self.next
    }

    fn next_time_ns(&self) -> (r: Option<u64>) {
        self.next
    }

    fn set_time_alert_ns(&mut self, alert_time_ns: u64) -> (r: Result<(), String>)
        ensures
            r is Ok,
    {
        self.next = Some(alert_time_ns);
        Ok(())
    }

    fn cancel_timer(&mut self) {
        self.next = None;
    }
}

/// What the shared deadline alert needs.
#[derive(Clone, Copy, Debug, PartialEq, Eq, Structural)]
pub enum TimerDecision {
    /// No request is pending: disarm it.
    Cancel,
    /// It fires in time: leave it.
    Keep,
    /// Arm it at the earliest deadline.
    Arm { alert_time_ns: u64 },
}

/// The alert decision for the earliest pending deadline, the alert's next firing and `now`.
pub open spec fn timer_decision(earliest: Option<u64>, next: Option<u64>, now: u64) -> TimerDecision {
    match earliest {
        None => TimerDecision::Cancel,
        Some(deadline) => if next matches Some(n) && n > now && n <= deadline {
            TimerDecision::Keep
        } else {
            TimerDecision::Arm { alert_time_ns: deadline }
        },
    }
}

/// Work the engine hands back to its caller, to perform in order.
#[derive(Debug)]
pub enum EngineAction {
    /// Stop and release the request-local aggregators of this request.
    CleanupRequestBarAggregators { request_id: UUID4 },
    /// Deliver this response on the route of this request.
    SendResponse { request_id: UUID4, response: DataResponse },
}

/// The mathematical value of an [`EngineAction`].
pub enum EngineActionView {
    CleanupRequestBarAggregators { request_id: UUID4 },
    SendResponse { request_id: UUID4, response: DataResponseView },
}

impl View for EngineAction {
    type V = EngineActionView;

    open spec fn view(&self) -> EngineActionView {
        match self {
            EngineAction::CleanupRequestBarAggregators { request_id } =>
                EngineActionView::CleanupRequestBarAggregators { request_id: *request_id },
            EngineAction::SendResponse { request_id, response } => EngineActionView::SendResponse {
                request_id: *request_id,
                response: response@,
            },
        }
    }
}

pub open spec fn actions_view(actions: Seq<EngineAction>) -> Seq<EngineActionView> {
    actions.map_values(|a: EngineAction| a@)
}

/// The release of the aggregators of each request in `ids`, in that order.
pub open spec fn cleanup_actions(ids: Seq<u128>) -> Seq<EngineActionView> {
    ids.map_values(|i: u128| EngineActionView::CleanupRequestBarAggregators { request_id: UUID4 { value: i } })
}

/// The standard targets of an optional plan, or none.
pub open spec fn plan_targets(plan: Option<Seq<BarType>>) -> Seq<BarType> {
    match plan {
        Some(p) => plan_standards(p),
        None => Seq::empty(),
    }
}

/// The standard targets of each plan entry, in plan order.
pub fn standard_targets(targets: &Vec<BarType>) -> (r: Vec<BarType>)
    ensures
        r@ == plan_standards(targets@),
{
    let mut r: Vec<BarType> = Vec::new();
    for i in 0..targets.len()
        invariant
            r@ == plan_standards(targets@.take(i as int)),
    {
        r.push(targets[i].standard());
        assert(plan_standards(targets@.take(i + 1)) =~= plan_standards(targets@.take(i as int)).push(
            targets@[i as int].spec_standard(),
        ));
    }
    assert(targets@.take(targets@.len() as int) =~= targets@);
    r
}

/// The engine-authored failure of a request whose source was never captured.
pub open spec fn failure_response(
    request: RequestBarsView,
    client_id: Option<ClientId>,
    error: Seq<char>,
    now: u64,
) -> DataResponseView {
    DataResponseView::BarsRequestFailed(
        HistoricalBarsRequestFailureView {
            request,
            client_id,
            error,
            aggregate_bar_types: plan_targets(request.aggregation_plan),
            ts_init: now,
        },
    )
}

pub open spec fn source_error_key() -> Seq<char> {
    "historical_bar_source_error"@
}

/// The empty, failed response that answers an original source after rejection.
pub open spec fn rejection_response(source: HistoricalBarSource, error: Seq<char>, now: u64) -> DataResponseView {
    let params = match params_view(source.params) {
        Some(p) => p,
        None => Seq::empty(),
    };
    DataResponseView::Bars(
        BarsResponseView {
            correlation_id: source.request_id,
            client_id: source.client_id,
            bar_type: source.bar_type,
            data: Seq::empty(),
            ts_init: now,
            start: Some(source.start_ns),
            end: Some(source.end_ns),
            params: Some(param_insert(params, source_error_key(), ParamValueView::Text(error))),
            historical_outcome: Some(
                HistoricalBarsOutcomeView::Failed {
                    error,
                    aggregate_bar_types: match source.aggregation {
                        Some(a) => plan_standards(a.bar_types@),
                        None => Seq::empty(),
                    },
                },
            ),
        },
    )
}

pub open spec fn timeout_parameter() -> Seq<char> {
    "historical_bars_timeout_ms"@
}

/// The default original budget, in milliseconds.
pub const HISTORICAL_BAR_DEFAULT_TIMEOUT_MS: u64 = 30_000u64;

/// The timeout budget that a request asks for: a positive integer parameter, or the default.
pub open spec fn requested_timeout_ms(request: RequestBarsView) -> Result<u64, AdmissionError> {
    let value = match request.params {
        Some(p) => param_lookup(p, timeout_parameter()),
        None => None,
    };
    match value {
        None => Ok(HISTORICAL_BAR_DEFAULT_TIMEOUT_MS),
        Some(ParamValueView::Unsigned(v)) => if v > 0 {
            Ok(v)
        } else {
            Err(AdmissionError::InvalidTimeout)
        },
        Some(_) => Err(AdmissionError::InvalidTimeout),
    }
}

/// The original deadline of a request admitted at `now`, with its budget, or why it has none.
pub open spec fn deadline_plan(request: RequestBarsView, now: u64, command_endpoint: bool) -> Result<(u64, u64), AdmissionError> {
    match requested_timeout_ms(request) {
        Err(e) => Err(e),
        Ok(timeout) => if timeout * NANOSECONDS_IN_MILLISECOND > u64::MAX {
            Err(AdmissionError::TimeoutOverflowsNanoseconds)
        } else if now + timeout * NANOSECONDS_IN_MILLISECOND > u64::MAX {
            Err(AdmissionError::DeadlineOverflows)
        } else if !command_endpoint {
            Err(AdmissionError::MissingCommandEndpoint)
        } else {
            Ok(((now + timeout * NANOSECONDS_IN_MILLISECOND) as u64, timeout))
        },
    }
}

impl Clone for HistoricalBarDeadline {
    fn clone(&self) -> (r: Self)
        ensures
            r.request@ == self.request@,
            r.client_id == self.client_id,
            r.expires_at == self.expires_at,
            r.timeout_ms == self.timeout_ms,
    {
        HistoricalBarDeadline {
            request: self.request.clone(),
            client_id: self.client_id,
            expires_at: self.expires_at,
            timeout_ms: self.timeout_ms,
        }
    }
}

/// The diagnostic of a request whose original budget ran out.
pub open spec fn timed_out_text(timeout_ms: u64) -> Seq<char> {
    "Historical bar request timed out after "@ + decimal_digits(timeout_ms as nat) + " ms"@
}

fn timed_out_message(timeout_ms: u64) -> (r: String)
    ensures
        r@ == timed_out_text(timeout_ms),
{
    let mut r = String::from_str("Historical bar request timed out after ");
    let digits = decimal(timeout_ms);
    r.append(digits.as_str());
    r.append(" ms");
    r
}

/// The diagnostic of a request failed because the shared alert could not be armed.
pub open spec fn unscheduled_text(error: Seq<char>) -> Seq<char> {
    "Unable to schedule historical request deadline: "@ + error
}

/// A stored deadline holds this request, resolved client, expiry and budget.
pub open spec fn deadline_is(
    d: HistoricalBarDeadline,
    request: RequestBarsView,
    client_id: ClientId,
    expires_at: u64,
    timeout_ms: u64,
) -> bool {
    &&& d.request@ == request
    &&& d.client_id == client_id
    &&& d.expires_at == expires_at
    &&& d.timeout_ms == timeout_ms
}

/// Bars in event-time order.
pub open spec fn sorted_by_event(bars: Seq<crate::model::Bar>) -> bool {
    forall|i: int, j: int| 0 <= i < j < bars.len() ==> bars[i].ts_event <= bars[j].ts_event
}

/// Sorts bars by event time, keeping the order of bars stamped alike.
pub fn sort_bars_by_event(bars: Vec<crate::model::Bar>) -> (r: Vec<crate::model::Bar>)
    ensures
        sorted_by_event(r@),
        r@.to_multiset() == bars@.to_multiset(),
{
    broadcast use vstd::seq_lib::group_to_multiset_ensures;
    let mut r: Vec<crate::model::Bar> = Vec::new();
    for i in 0..bars.len()
        invariant
            sorted_by_event(r@),
            r@.to_multiset() == bars@.take(i as int).to_multiset(),
    {
        let bar = bars[i];
        let mut pos: usize = r.len();
        while pos > 0 && r[pos - 1].ts_event > bar.ts_event
            invariant
                pos <= r@.len(),
                forall|k: int| pos <= k < r@.len() ==> r@[k].ts_event > bar.ts_event,
            decreases pos,
        {
            pos = pos - 1;
        }
        let ghost before = r@;
        r.insert(pos, bar);
        proof {
            assert(bars@.take(i + 1) =~= bars@.take(i as int).push(bar));
            vstd::seq_lib::to_multiset_insert(before, pos as int, bar);
            bars@.take(i as int).to_multiset_ensures();
            assert(r@ == before.insert(pos as int, bar));
            assert forall|a: int, b: int| 0 <= a < b < r@.len() implies r@[a].ts_event <= r@[b].ts_event by {
                if pos > 0 {
                    assert(before[pos - 1].ts_event <= bar.ts_event);
                }
                if a < pos as int && b == pos as int {
                    assert(before[a].ts_event <= before[pos - 1].ts_event);
                }
            }
        }
    }
    assert(bars@.take(bars@.len() as int) =~= bars@);
    r
}

/// The bars of the first `n` legs, concatenated in leg order.
pub open spec fn leg_bars(legs: Seq<DataResponseView>, n: nat) -> Seq<crate::model::Bar>
    decreases n,
{
    if n == 0 {
        Seq::empty()
    } else {
        leg_bars(legs, (n - 1) as nat) + match legs[n - 1] {
            DataResponseView::Bars(b) => b.data,
            _ => Seq::empty(),
        }
    }
}

pub open spec fn wrong_leg_text() -> Seq<char> {
    "Historical pipeline has wrong source variant"@
}

pub open spec fn pipeline_excess_text() -> Seq<char> {
    "Historical pipeline exceeds original coverage"@
}

/// The first reason the first `n` pipeline legs are refused before their union is checked.
pub open spec fn legs_refusal(legs: Seq<DataResponseView>, expected: usize, n: nat) -> Option<Seq<char>>
    decreases n,
{
    if n == 0 {
        None
    } else {
        match legs_refusal(legs, expected, (n - 1) as nat) {
            Some(e) => Some(e),
            None => match legs[n - 1] {
                DataResponseView::Bars(b) => if b.data.len() + leg_bars(legs, (n - 1) as nat).len() > expected {
                    Some(pipeline_excess_text())
                } else {
                    None
                },
                _ => Some(wrong_leg_text()),
            },
        }
    }
}

/// The total record count of staged responses, counting those without records as empty.
pub open spec fn staged_total(responses: Seq<DataResponse>) -> int
    decreases responses.len(),
{
    if responses.len() == 0 {
        0
    } else {
        staged_total(responses.drop_last()) + match responses.last()@.record_count() {
            Some(c) => c as int,
            None => 0,
        }
    }
}

/// What completing a validated historical response needs next.
#[derive(Debug)]
pub enum CompletionStep {
    /// Completion is decided: whether the response may proceed.
    Finished(bool),
    /// The response's source must run through its request-local aggregation (after its
    /// aggregators are prepared, when it has a plan, and the preparation is settled), and then
    /// be finished.
    Aggregate { request_id: UUID4, has_plan: bool },
}

/// The historical-bar state of the data engine.
pub struct DataEngine {
    /// Opt-in validation of historical sources; off keeps the partial-history profile.
    validate_historical_bars: bool,
    historical_bar_deadlines: HashMap<u128, HistoricalBarDeadline>,
    historical_bar_sources: HashMap<u128, HistoricalBarSource>,
    request_pipeline_parent_request_id: HashMap<u128, UUID4>,
    time_range_pipeline_parent_request_id: HashMap<u128, UUID4>,
    request_pipeline_parent_request: HashMap<u128, RequestCommand>,
    request_pipeline_n_components: HashMap<u128, usize>,
    request_pipeline_responses: HashMap<u128, Vec<DataResponse>>,
    time_range_pipeline_requests: HashMap<u128, RequestCommand>,
    closed_scopes: HashSet<u64>,
    source_depth: Ghost<Map<u128, nat>>,
}

/// Links from a request to its parent that touch none of `ids`.
pub open spec fn kept_links(m: Map<u128, UUID4>, ids: Set<u128>) -> Map<u128, UUID4> {
    Map::new(|k: u128| m.contains_key(k) && !ids.contains(k) && !ids.contains(m[k].value), |k: u128| m[k])
}

/// Removes every link from or to `id`.
fn unlink(m: &mut HashMap<u128, UUID4>, id: u128)
    ensures
        final(m)@ == kept_links(old(m)@, set![id]),
{
    let keys = map_keys(m);
    let ghost start = m@;
    let ghost mut done: Set<u128> = Set::empty();
    for i in 0..keys.len()
        invariant
            keys@.to_set() == start.dom(),
            done == keys@.take(i as int).to_set(),
            m@ == Map::new(
                |k: u128| start.contains_key(k) && !(done.contains(k) && (k == id || start[k].value == id)),
                |k: u128| start[k],
            ),
    {
        let k = keys[i];
        assert(start.contains_key(k)) by {
            assert(keys@.to_set().contains(k));
        }
        let remove = match m.get(&k) {
            Some(parent) => k == id || parent.value == id,
            None => false,
        };
        if remove {
            m.remove(&k);
        }
        proof {
            assert(keys@.take(i + 1) =~= keys@.take(i as int).push(k));
            keys@.take(i as int).lemma_push_to_set_commute(k);
            done = done.insert(k);
        }
        assert(m@ =~= Map::new(
            |x: u128| start.contains_key(x) && !(done.contains(x) && (x == id || start[x].value == id)),
            |x: u128| start[x],
        ));
    }
    assert(keys@.take(keys@.len() as int) =~= keys@);
    assert(m@ =~= kept_links(start, set![id]));
}

/// The keys of a map keyed by request identifier, in the map's own order.
fn map_keys<V>(m: &HashMap<u128, V>) -> (r: Vec<u128>)
    ensures
        r@.to_set() == m@.dom(),
        r@.no_duplicates(),
{
    let mut r: Vec<u128> = Vec::new();
    let ghost rem = vstd::std_specs::hash::spec_keys_iter(m).remaining();
    for k in it: m.keys()
        invariant
            rem == vstd::std_specs::hash::spec_keys_iter(m).remaining(),
            r@ == rem.take(it.index()).unref(),
            it.seq() == rem,
    {
        r.push(*k);
        assert(r@ =~= rem.take(it.index() + 1).unref());
    }
    assert(r@ =~= rem.unref());
    assert(r@.no_duplicates()) by {
        let s = rem;
        assert(s.no_duplicates());
        assert forall|i: int, j: int| 0 <= i < r@.len() && 0 <= j < r@.len() && i != j implies r@[i] != r@[j] by {
            assert(s[i] != s[j]);
        }
    }
    r
}

impl DataEngine {
    /// Whether opt-in validation of historical sources is on.
    pub closed spec fn validates(&self) -> bool {
        self.validate_historical_bars
    }

    pub closed spec fn sources(&self) -> Map<u128, HistoricalBarSource> {
        self.historical_bar_sources@
    }

    pub closed spec fn deadlines(&self) -> Map<u128, HistoricalBarDeadline> {
        self.historical_bar_deadlines@
    }

    pub closed spec fn pipeline_parents(&self) -> Map<u128, UUID4> {
        self.request_pipeline_parent_request_id@
    }

    pub closed spec fn time_range_parents(&self) -> Map<u128, UUID4> {
        self.time_range_pipeline_parent_request_id@
    }

    pub closed spec fn closed_scope_ids(&self) -> Set<u64> {
        self.closed_scopes@
    }

    pub closed spec fn pipeline_requests(&self) -> Map<u128, RequestCommand> {
        self.request_pipeline_parent_request@
    }

    pub closed spec fn pipeline_components(&self) -> Map<u128, usize> {
        self.request_pipeline_n_components@
    }

    pub closed spec fn staged_responses(&self) -> Map<u128, Vec<DataResponse>> {
        self.request_pipeline_responses@
    }

    pub closed spec fn time_range_requests(&self) -> Map<u128, RequestCommand> {
        self.time_range_pipeline_requests@
    }

    pub closed spec fn depths(&self) -> Map<u128, nat> {
        self.source_depth@
    }

    /// A requester scope that has been closed.
    pub open spec fn scope_inactive(&self, scope: Option<RequestScope>) -> bool {
        scope matches Some(sc) && self.closed_scope_ids().contains(sc.id)
    }

    /// The requests that `discard_historical_bar_sources(parent)` releases: captured sources
    /// within the parent's tree and, when validation is on, frozen pipeline intent within it
    /// and the parent itself.
    pub open spec fn discard_set(&self, parent: u128) -> Set<u128> {
        let base = self.sources().dom().filter(|k: u128| self.reaches(k, parent));
        if self.validates() {
            base + self.pipeline_requests().dom().filter(|k: u128| self.reaches(k, parent))
                + self.time_range_requests().dom().filter(|k: u128| self.reaches(k, parent))
                + set![parent]
        } else {
            base
        }
    }

    /// `self` is `before` with every request in `ids` released.
    pub open spec fn discarded_from(&self, before: &Self, ids: Set<u128>) -> bool {
        &&& self.validates() == before.validates()
        &&& self.sources() == before.sources().remove_keys(ids)
        &&& self.deadlines() == before.deadlines().remove_keys(ids)
        &&& self.pipeline_requests() == before.pipeline_requests().remove_keys(ids)
        &&& self.pipeline_components() == before.pipeline_components().remove_keys(ids)
        &&& self.staged_responses() == before.staged_responses().remove_keys(ids)
        &&& self.time_range_requests() == before.time_range_requests().remove_keys(ids)
        &&& self.pipeline_parents() == kept_links(before.pipeline_parents(), ids)
        &&& self.time_range_parents() == kept_links(before.time_range_parents(), ids)
        &&& self.closed_scope_ids() == before.closed_scope_ids()
        &&& self.depths() == before.depths()
    }

    /// The engine's state is consistent: sources and deadlines are stored under their own
    /// request identifiers, sources are well formed, and every source's parent is a captured
    /// source nearer its root.
    pub closed spec fn inv(&self) -> bool {
        &&& forall|id: u128| #[trigger]
            self.historical_bar_sources@.contains_key(id) ==> {
                let s = self.historical_bar_sources@[id];
                &&& s.request_id.value == id
                &&& s.wf()
                &&& s.outputs@.max_per_target == s.output_limit
                &&& self.source_depth@.contains_key(id)
                &&& s.parent_request_id matches Some(p) ==> {
                    &&& self.historical_bar_sources@.contains_key(p.value)
                    &&& self.source_depth@[p.value] < self.source_depth@[id]
                }
            }
        &&& forall|id: u128| #[trigger]
            self.historical_bar_deadlines@.contains_key(id)
                ==> self.historical_bar_deadlines@[id].request.request_id.value == id
    }

    /// The parent of a request: its captured source's parent, else its pipeline parent, else
    /// its time-range parent.
    pub open spec fn parent_link(&self, id: u128) -> Option<u128> {
        if self.sources().contains_key(id) && self.sources()[id].parent_request_id is Some {
            Some(self.sources()[id].parent_request_id->0.value)
        } else if self.pipeline_parents().contains_key(id) {
            Some(self.pipeline_parents()[id].value)
        } else if self.time_range_parents().contains_key(id) {
            Some(self.time_range_parents()[id].value)
        } else {
            None
        }
    }

    /// The `k`-th ancestor of a request along its parent links.
    pub open spec fn ancestor(&self, id: u128, k: nat) -> Option<u128>
        decreases k,
    {
        if k == 0 {
            Some(id)
        } else {
            match self.ancestor(id, (k - 1) as nat) {
                Some(x) => self.parent_link(x),
                None => None,
            }
        }
    }

    /// `target` is the request itself or one of its ancestors.
    pub open spec fn reaches(&self, id: u128, target: u128) -> bool {
        exists|k: nat| #[trigger] self.ancestor(id, k) == Some(target)
    }

    /// The requests that can have a parent.
    pub open spec fn linked_ids(&self) -> Set<u128> {
        self.sources().dom() + self.pipeline_parents().dom() + self.time_range_parents().dom()
    }

    pub proof fn lemma_ancestor_shift(&self, id: u128, a: nat, b: nat, t: nat)
        requires
            self.ancestor(id, a) == self.ancestor(id, b),
        ensures
            self.ancestor(id, a + t) == self.ancestor(id, b + t),
        decreases t,
    {
        if t > 0 {
            self.lemma_ancestor_shift(id, a, b, (t - 1) as nat);
            assert(self.ancestor(id, a + t) == match self.ancestor(id, (a + t - 1) as nat) {
                Some(x) => self.parent_link(x),
                None => None,
            });
            assert(self.ancestor(id, b + t) == match self.ancestor(id, (b + t - 1) as nat) {
                Some(x) => self.parent_link(x),
                None => None,
            });
        }
    }

    /// Once the chain repeats, every later ancestor is one already met.
    pub proof fn lemma_cycle_closes(&self, id: u128, j: nat, n: nat, k: nat)
        requires
            j < n,
            self.ancestor(id, j) == self.ancestor(id, n),
        ensures
            exists|t: nat| t < n && self.ancestor(id, k) == #[trigger] self.ancestor(id, t),
        decreases k,
    {
        if k < n {
            assert(self.ancestor(id, k) == self.ancestor(id, k));
        } else {
            let back = (k - (n - j)) as nat;
            self.lemma_ancestor_shift(id, n, j, (k - n) as nat);
            assert(self.ancestor(id, k) == self.ancestor(id, back));
            self.lemma_cycle_closes(id, j, n, back);
            let t = choose|t: nat| t < n && self.ancestor(id, back) == #[trigger] self.ancestor(
                id,
                t,
            );
            assert(self.ancestor(id, k) == self.ancestor(id, t));
        }
    }

    /// After the chain ends, no later ancestor exists.
    pub proof fn lemma_chain_ended(&self, id: u128, n: nat, k: nat)
        requires
            self.ancestor(id, n) is None,
            n <= k,
        ensures
            self.ancestor(id, k) is None,
        decreases k,
    {
        if n < k {
            self.lemma_chain_ended(id, n, (k - 1) as nat);
        }
    }

    /// The parent of a request, as [`DataEngine::parent_link`] defines it.
    pub fn historical_bar_parent_id(&self, request_id: UUID4) -> (r: Option<UUID4>)
        ensures
            match r {
                Some(p) => self.parent_link(request_id.value) == Some(p.value),
                None => self.parent_link(request_id.value) is None,
            },
    {
        if let Some(source) = self.historical_bar_sources.get(&request_id.value) {
            if let Some(parent) = source.parent_request_id {
                return Some(parent);
            }
        }
        if let Some(parent) = self.request_pipeline_parent_request_id.get(&request_id.value) {
            return Some(*parent);
        }
        if let Some(parent) = self.time_range_pipeline_parent_request_id.get(&request_id.value) {
            return Some(*parent);
        }
        None
    }

    /// Whether `parent_id` is the request itself or one of its ancestors; a cyclic ancestry
    /// is walked once.
    pub fn historical_bar_source_is_within(&self, request_id: UUID4, parent_id: UUID4) -> (r: bool)
        ensures
            r == self.reaches(request_id.value, parent_id.value),
    {
        let ghost start = request_id.value;
        let ghost keys = self.linked_ids();
        proof {
            assert(keys.finite());
        }
        let mut next_id = Some(request_id);
        let mut visited = id_set_new();
        let ghost mut path: Seq<u128> = Seq::empty();
        while next_id.is_some()
            invariant
                start == request_id.value,
                keys == self.linked_ids(),
                keys.finite(),
                path.no_duplicates(),
                id_set_contents(visited) == path.to_set(),
                forall|t: nat| t < path.len() ==> self.ancestor(start, t) == Some(
                    #[trigger] path[t as int],
                ),
                match next_id {
                    Some(x) => self.ancestor(start, path.len()) == Some(x.value),
                    None => self.ancestor(start, path.len()) is None,
                },
                forall|t: int| 0 <= t < path.len() ==> #[trigger] path[t] != parent_id.value,
                next_id is Some ==> path.to_set().subset_of(keys),
                path.len() <= keys.len() + 1,
            decreases keys.len() + 1 - path.len(),
        {
            let id = next_id.unwrap();
            if id == parent_id {
                assert(self.ancestor(start, path.len()) == Some(parent_id.value));
                return true;
            }
            proof {
                path.unique_seq_to_set();
                vstd::set_lib::lemma_len_subset(path.to_set(), keys);
            }
            if !id_set_insert(&mut visited, id.value) {
                proof {
                    let j = choose|j: int| 0 <= j < path.len() && path[j] == id.value;
                    assert(self.ancestor(start, j as nat) == Some(id.value));
                    assert forall|k: nat| #[trigger] self.ancestor(start, k) != Some(
                        parent_id.value,
                    ) by {
                        self.lemma_cycle_closes(start, j as nat, path.len(), k);
                        let t = choose|t: nat| t < path.len() && self.ancestor(start, k)
                            == #[trigger] self.ancestor(start, t);
                        if t < path.len() {
                            assert(self.ancestor(start, t) == Some(path[t as int]));
                        } else {
                            assert(self.ancestor(start, t) == Some(id.value));
                        }
                    }
                }
                return false;
            }
            proof {
                path.lemma_push_to_set_commute(id.value);
                path = path.push(id.value);
                assert(path.no_duplicates());
            }
            next_id = self.historical_bar_parent_id(id);
            proof {
                if next_id is Some {
                    assert(keys.contains(id.value));
                    assert(path.to_set().subset_of(keys));
                    path.unique_seq_to_set();
                    vstd::set_lib::lemma_len_subset(path.to_set(), keys);
                }
            }
        }
        proof {
            assert forall|k: nat| #[trigger] self.ancestor(start, k) != Some(parent_id.value) by {
                if k >= path.len() {
                    self.lemma_chain_ended(start, path.len(), k);
                } else {
                    assert(self.ancestor(start, k) == Some(path[k as int]));
                }
            }
        }
        false
    }

    /// The `k`-th ancestor of a request holds the first original deadline on its chain.
    pub open spec fn first_deadline_at(&self, id: u128, k: nat) -> bool {
        &&& self.ancestor(id, k) matches Some(x) && self.deadlines().contains_key(x)
        &&& forall|j: nat|
            j < k ==> (#[trigger] self.ancestor(id, j) matches Some(y) ==> !self.deadlines().contains_key(y))
    }

    /// The nearest original deadline on the request's chain has passed at `now`.
    pub open spec fn deadline_elapsed(&self, id: u128, now: u64) -> bool {
        exists|k: nat| #[trigger]
            self.first_deadline_at(id, k) && now >= self.deadlines()[self.ancestor(id, k)->0].expires_at
    }

    /// Whether the nearest original deadline on the request's chain has passed.
    pub fn historical_bar_deadline_has_elapsed(&self, request_id: UUID4, now: u64) -> (r: bool)
        ensures
            r == self.deadline_elapsed(request_id.value, now),
    {
        let ghost start = request_id.value;
        let ghost keys = self.linked_ids();
        let mut next = Some(request_id);
        let mut visited = id_set_new();
        let ghost mut path: Seq<u128> = Seq::empty();
        while next.is_some()
            invariant
                start == request_id.value,
                keys == self.linked_ids(),
                keys.finite(),
                path.no_duplicates(),
                id_set_contents(visited) == path.to_set(),
                forall|t: nat| t < path.len() ==> self.ancestor(start, t) == Some(
                    #[trigger] path[t as int],
                ),
                match next {
                    Some(x) => self.ancestor(start, path.len()) == Some(x.value),
                    None => self.ancestor(start, path.len()) is None,
                },
                forall|t: int| 0 <= t < path.len() ==> !self.deadlines().contains_key(#[trigger] path[t]),
                next is Some ==> path.to_set().subset_of(keys),
                path.len() <= keys.len() + 1,
            decreases keys.len() + 1 - path.len(),
        {
            let id = next.unwrap();
            proof {
                path.unique_seq_to_set();
                vstd::set_lib::lemma_len_subset(path.to_set(), keys);
            }
            if !id_set_insert(&mut visited, id.value) {
                proof {
                    let j = choose|j: int| 0 <= j < path.len() && path[j] == id.value;
                    assert(self.ancestor(start, j as nat) == Some(id.value));
                    assert forall|k: nat| !#[trigger] self.first_deadline_at(start, k) by {
                        self.lemma_cycle_closes(start, j as nat, path.len(), k);
                        let t = choose|t: nat| t < path.len() && self.ancestor(start, k)
                            == #[trigger] self.ancestor(start, t);
                        assert(self.ancestor(start, t) == Some(path[t as int]));
                    }
                }
                return false;
            }
            if let Some(deadline) = self.historical_bar_deadlines.get(&id.value) {
                proof {
                    let n = path.len();
                    assert(self.first_deadline_at(start, n)) by {
                        assert forall|j: nat| j < n implies (#[trigger] self.ancestor(start, j) matches Some(y)
                            ==> !self.deadlines().contains_key(y)) by {
                            assert(self.ancestor(start, j) == Some(path[j as int]));
                        }
                    }
                    assert forall|k: nat| #[trigger] self.first_deadline_at(start, k) implies k == n by {
                        if k < n {
                            assert(self.ancestor(start, k) == Some(path[k as int]));
                        } else if k > n {
                            assert(self.ancestor(start, n) matches Some(y) ==> !self.deadlines().contains_key(y));
                        }
                    }
                }
                return now >= deadline.expires_at;
            }
            proof {
                path.lemma_push_to_set_commute(id.value);
                path = path.push(id.value);
            }
            next = self.historical_bar_parent_id(id);
            proof {
                if next is Some {
                    assert(keys.contains(id.value));
                    path.unique_seq_to_set();
                    vstd::set_lib::lemma_len_subset(path.to_set(), keys);
                }
            }
        }
        proof {
            assert forall|k: nat| !#[trigger] self.first_deadline_at(start, k) by {
                if k >= path.len() {
                    self.lemma_chain_ended(start, path.len(), k);
                } else {
                    assert(self.ancestor(start, k) == Some(path[k as int]));
                }
            }
        }
        false
    }

    /// The root of a captured source along its sources' parents, within `fuel` steps.
    pub open spec fn source_root_within(&self, id: u128, fuel: nat) -> Option<u128>
        decreases fuel,
    {
        if !self.sources().contains_key(id) {
            None
        } else {
            match self.sources()[id].parent_request_id {
                None => Some(id),
                Some(p) => if fuel == 0 {
                    None
                } else {
                    self.source_root_within(p.value, (fuel - 1) as nat)
                },
            }
        }
    }

    pub closed spec fn depth_of(&self, id: u128) -> nat {
        self.source_depth@[id]
    }

    /// The original source at the root of a captured source's tree.
    pub open spec fn source_root(&self, id: u128) -> Option<u128> {
        self.source_root_within(id, self.depth_of(id))
    }

    /// With enough steps, the root of a captured source is found, is itself a source without a
    /// parent, and is reached along the request's ancestry.
    pub proof fn lemma_source_root(&self, id: u128, fuel: nat)
        requires
            self.inv(),
            fuel >= self.depth_of(id),
        ensures
            self.source_root_within(id, fuel) == self.source_root(id),
            self.sources().contains_key(id) <==> self.source_root(id) is Some,
            self.source_root(id) matches Some(r) ==> {
                &&& self.sources().contains_key(r)
                &&& self.sources()[r].parent_request_id is None
                &&& self.reaches(id, r)
            },
        decreases self.depth_of(id),
    {
        if self.sources().contains_key(id) {
            if let Some(p) = self.sources()[id].parent_request_id {
                assert(self.depth_of(p.value) < self.depth_of(id));
                self.lemma_source_root(p.value, (fuel - 1) as nat);
                self.lemma_source_root(p.value, (self.depth_of(id) - 1) as nat);
                if let Some(r) = self.source_root(id) {
                    let k = choose|k: nat| #[trigger] self.ancestor(p.value, k) == Some(r);
                    self.lemma_ancestor_step(id, p.value, k);
                }
            } else {
                assert(self.ancestor(id, 0) == Some(id));
            }
        }
    }

    /// The ancestors of a request's parent are its own ancestors, one step further.
    pub proof fn lemma_ancestor_step(&self, id: u128, parent: u128, k: nat)
        requires
            self.parent_link(id) == Some(parent),
        ensures
            self.ancestor(id, k + 1) == self.ancestor(parent, k),
        decreases k,
    {
        assert(self.ancestor(id, 0) == Some(id));
        if k > 0 {
            self.lemma_ancestor_step(id, parent, (k - 1) as nat);
            assert(self.ancestor(id, k + 1) == match self.ancestor(id, k) {
                Some(x) => self.parent_link(x),
                None => None,
            });
            assert(self.ancestor(parent, k) == match self.ancestor(parent, (k - 1) as nat) {
                Some(x) => self.parent_link(x),
                None => None,
            });
        } else {
            assert(self.ancestor(id, 1) == match self.ancestor(id, 0) {
                Some(x) => self.parent_link(x),
                None => None,
            });
        }
    }

    /// The original source at the root of the captured source tree holding `request_id`.
    pub fn original_historical_bar_source(&self, request_id: UUID4) -> (r: Option<&HistoricalBarSource>)
        requires
            self.inv(),
        ensures
            match self.source_root(request_id.value) {
                Some(root) => r == Some(&self.sources()[root]),
                None => r is None,
            },
    {
        proof {
            self.lemma_source_root(request_id.value, self.depth_of(request_id.value));
        }
        let mut source = match self.historical_bar_sources.get(&request_id.value) {
            Some(s) => s,
            None => return None,
        };
        loop
            invariant
                self.inv(),
                self.sources().contains_key(source.request_id.value),
                *source == self.sources()[source.request_id.value],
                self.source_root(source.request_id.value) == self.source_root(request_id.value),
            decreases self.depth_of(source.request_id.value),
        {
            let parent_id = match source.parent_request_id {
                Some(p) => p,
                None => {
                    proof {
                        self.lemma_source_root(source.request_id.value, self.depth_of(source.request_id.value));
                    }
                    return Some(source);
                },
            };
            proof {
                let id = source.request_id.value;
                self.lemma_source_root(parent_id.value, (self.depth_of(id) - 1) as nat);
                self.lemma_source_root(parent_id.value, self.depth_of(parent_id.value));
            }
            source = match self.historical_bar_sources.get(&parent_id.value) {
                Some(s) => s,
                None => return None,
            };
        }
    }

    /// Creates an engine with no pending historical request.
    pub fn new(validate_historical_bars: bool) -> (r: Self)
        ensures
            r.inv(),
            r.validates() == validate_historical_bars,
            r.sources().is_empty(),
            r.deadlines().is_empty(),
            r.pipeline_parents().is_empty(),
            r.time_range_parents().is_empty(),
            r.pipeline_requests().is_empty(),
            r.pipeline_components().is_empty(),
            r.staged_responses().is_empty(),
            r.time_range_requests().is_empty(),
            r.closed_scope_ids().is_empty(),
    {
        DataEngine {
            validate_historical_bars,
            historical_bar_deadlines: HashMap::new(),
            historical_bar_sources: HashMap::new(),
            request_pipeline_parent_request_id: HashMap::new(),
            time_range_pipeline_parent_request_id: HashMap::new(),
            request_pipeline_parent_request: HashMap::new(),
            request_pipeline_n_components: HashMap::new(),
            request_pipeline_responses: HashMap::new(),
            time_range_pipeline_requests: HashMap::new(),
            closed_scopes: HashSet::new(),
            source_depth: Ghost(Map::empty()),
        }
    }

    /// Whether opt-in validation of historical sources is on.
    pub fn validate_historical_bars(&self) -> (r: bool)
        ensures
            r == self.validates(),
    {
        self.validate_historical_bars
    }

    /// Records that a requester scope has been closed; its requests are no longer delivered.
    pub fn close_request_scope(&mut self, scope_id: u64)
        requires
            old(self).inv(),
        ensures
            final(self).inv(),
            final(self).closed_scope_ids() == old(self).closed_scope_ids().insert(scope_id),
            final(self).sources() == old(self).sources(),
            final(self).deadlines() == old(self).deadlines(),
            final(self).validates() == old(self).validates(),
    {
        self.closed_scopes.insert(scope_id);
    }

    /// Whether a request's scope has been closed.
    pub fn scope_is_inactive(&self, scope: &Option<RequestScope>) -> (r: bool)
        ensures
            r == self.scope_inactive(*scope),
    {
        match scope {
            Some(sc) => self.closed_scopes.contains(&sc.id),
            None => false,
        }
    }

    /// Stages a request-pipeline leg under its parent.
    pub fn insert_request_pipeline_parent(&mut self, leg_id: UUID4, parent_id: UUID4)
        requires
            old(self).inv(),
        ensures
            final(self).inv(),
            final(self).pipeline_parents() == old(self).pipeline_parents().insert(leg_id.value, parent_id),
            final(self).sources() == old(self).sources(),
            final(self).deadlines() == old(self).deadlines(),
    {
        self.request_pipeline_parent_request_id.insert(leg_id.value, parent_id);
    }

    /// Stages a time-range child request under its parent.
    pub fn insert_time_range_pipeline_parent(&mut self, child_id: UUID4, parent_id: UUID4)
        requires
            old(self).inv(),
        ensures
            final(self).inv(),
            final(self).time_range_parents() == old(self).time_range_parents().insert(child_id.value, parent_id),
            final(self).sources() == old(self).sources(),
            final(self).deadlines() == old(self).deadlines(),
    {
        self.time_range_pipeline_parent_request_id.insert(child_id.value, parent_id);
    }

    /// Freezes the original intent of a request pipeline, with its number of components.
    pub fn insert_request_pipeline_parent_request(
        &mut self,
        parent_id: UUID4,
        request: RequestCommand,
        n_components: usize,
    )
        requires
            old(self).inv(),
        ensures
            final(self).inv(),
            final(self).pipeline_requests() == old(self).pipeline_requests().insert(parent_id.value, request),
            final(self).pipeline_components() == old(self).pipeline_components().insert(
                parent_id.value,
                n_components,
            ),
            final(self).sources() == old(self).sources(),
            final(self).deadlines() == old(self).deadlines(),
    {
        self.request_pipeline_parent_request.insert(parent_id.value, request);
        self.request_pipeline_n_components.insert(parent_id.value, n_components);
    }

    /// Freezes a pending time-range request.
    pub fn insert_time_range_pipeline_request(&mut self, request_id: UUID4, request: RequestCommand)
        requires
            old(self).inv(),
        ensures
            final(self).inv(),
            final(self).time_range_requests() == old(self).time_range_requests().insert(request_id.value, request),
            final(self).sources() == old(self).sources(),
            final(self).deadlines() == old(self).deadlines(),
    {
        self.time_range_pipeline_requests.insert(request_id.value, request);
    }

    /// Stages one leg response of a request pipeline.
    pub fn push_request_pipeline_response(&mut self, parent_id: UUID4, response: DataResponse)
        requires
            old(self).inv(),
        ensures
            final(self).inv(),
            final(self).staged_responses().contains_key(parent_id.value),
            final(self).staged_responses()[parent_id.value]@ == (if old(self).staged_responses().contains_key(
                parent_id.value,
            ) {
                old(self).staged_responses()[parent_id.value]@
            } else {
                Seq::empty()
            }).push(response),
            final(self).sources() == old(self).sources(),
            final(self).deadlines() == old(self).deadlines(),
    {
        let mut staged = match self.request_pipeline_responses.remove(&parent_id.value) {
            Some(v) => v,
            None => Vec::new(),
        };
        staged.push(response);
        self.request_pipeline_responses.insert(parent_id.value, staged);
    }

    /// Removes only this original budget; the alert is cancelled when no budget remains.
    pub fn retire_historical_bar_deadline<T: HistoricalBarTimer>(
        &mut self,
        request_id: &UUID4,
        timer: &mut T,
    )
        ensures
            old(self).inv() ==> final(self).inv(),
            final(self).deadlines() == old(self).deadlines().remove(request_id.value),
            final(self).deadlines().is_empty() ==> final(timer).next_alert() is None,
            !final(self).deadlines().is_empty() ==> *final(timer) == *old(timer),
            final(self).sources() == old(self).sources(),
            final(self).validates() == old(self).validates(),
            final(self).pipeline_requests() == old(self).pipeline_requests(),
            final(self).pipeline_components() == old(self).pipeline_components(),
            final(self).staged_responses() == old(self).staged_responses(),
            final(self).time_range_requests() == old(self).time_range_requests(),
            final(self).pipeline_parents() == old(self).pipeline_parents(),
            final(self).time_range_parents() == old(self).time_range_parents(),
            final(self).closed_scope_ids() == old(self).closed_scope_ids(),
            final(self).depths() == old(self).depths(),
    {
        self.historical_bar_deadlines.remove(&request_id.value);
        if self.historical_bar_deadlines.is_empty() {
            timer.cancel_timer();
        }
    }

    /// Every request in the discard set reaches the parent.
    proof fn lemma_discard_set_reaches(&self, parent: u128, id: u128)
        requires
            self.discard_set(parent).contains(id),
        ensures
            self.reaches(id, parent),
    {
        if id == parent {
            assert(self.ancestor(id, 0) == Some(parent));
        }
    }

    /// Releases the whole source tree of `parent_id`: its sources, original deadlines, staged
    /// pipeline state and ancestry links, and the request-local aggregators of each released
    /// request.
    pub fn discard_historical_bar_sources<T: HistoricalBarTimer>(
        &mut self,
        parent_id: UUID4,
        timer: &mut T,
        actions: &mut Vec<EngineAction>,
    )
        requires
            old(self).inv(),
        ensures
            final(self).inv(),
            final(self).discarded_from(old(self), old(self).discard_set(parent_id.value)),
            exists|ids: Seq<u128>|
                #![trigger ids.to_set()]
                ids.no_duplicates() && ids.to_set() == old(self).discard_set(parent_id.value)
                    && actions_view(final(actions)@) == actions_view(old(actions)@) + cleanup_actions(ids),
    {
        let ghost pre = *self;
        let ghost target = self.discard_set(parent_id.value);
        let mut request_ids = id_set_new();
        let source_ids = map_keys(&self.historical_bar_sources);
        let ghost mut seen: Set<u128> = Set::empty();
        for i in 0..source_ids.len()
            invariant
                *self == pre,
                source_ids@.to_set() == self.sources().dom(),
                seen == source_ids@.take(i as int).to_set(),
                id_set_contents(request_ids) == seen.filter(|k: u128| self.reaches(k, parent_id.value)),
        {
            let k = source_ids[i];
            if self.historical_bar_source_is_within(UUID4 { value: k }, parent_id) {
                id_set_insert(&mut request_ids, k);
            }
            proof {
                assert(source_ids@.take(i + 1) =~= source_ids@.take(i as int).push(k));
                source_ids@.take(i as int).lemma_push_to_set_commute(k);
                seen = seen.insert(k);
            }
            assert(id_set_contents(request_ids) =~= seen.filter(|k: u128| self.reaches(k, parent_id.value)));
        }
        proof {
            assert(source_ids@.take(source_ids@.len() as int) =~= source_ids@);
        }
        if self.validate_historical_bars {
            let ghost base = id_set_contents(request_ids);
            let pipeline_ids = map_keys(&self.request_pipeline_parent_request);
            let ghost mut seen_p: Set<u128> = Set::empty();
            for i in 0..pipeline_ids.len()
                invariant
                    *self == pre,
                    pipeline_ids@.to_set() == self.pipeline_requests().dom(),
                    seen_p == pipeline_ids@.take(i as int).to_set(),
                    id_set_contents(request_ids) == base + seen_p.filter(|k: u128| self.reaches(k, parent_id.value)),
            {
                let k = pipeline_ids[i];
                if self.historical_bar_source_is_within(UUID4 { value: k }, parent_id) {
                    id_set_insert(&mut request_ids, k);
                }
                proof {
                    assert(pipeline_ids@.take(i + 1) =~= pipeline_ids@.take(i as int).push(k));
                    pipeline_ids@.take(i as int).lemma_push_to_set_commute(k);
                    seen_p = seen_p.insert(k);
                }
                assert(id_set_contents(request_ids) =~= base + seen_p.filter(|k: u128| self.reaches(k, parent_id.value)));
            }
            proof {
                assert(pipeline_ids@.take(pipeline_ids@.len() as int) =~= pipeline_ids@);
            }
            let ghost base2 = id_set_contents(request_ids);
            let range_ids = map_keys(&self.time_range_pipeline_requests);
            let ghost mut seen_r: Set<u128> = Set::empty();
            for i in 0..range_ids.len()
                invariant
                    *self == pre,
                    range_ids@.to_set() == self.time_range_requests().dom(),
                    seen_r == range_ids@.take(i as int).to_set(),
                    id_set_contents(request_ids) == base2 + seen_r.filter(|k: u128| self.reaches(k, parent_id.value)),
            {
                let k = range_ids[i];
                if self.historical_bar_source_is_within(UUID4 { value: k }, parent_id) {
                    id_set_insert(&mut request_ids, k);
                }
                proof {
                    assert(range_ids@.take(i + 1) =~= range_ids@.take(i as int).push(k));
                    range_ids@.take(i as int).lemma_push_to_set_commute(k);
                    seen_r = seen_r.insert(k);
                }
                assert(id_set_contents(request_ids) =~= base2 + seen_r.filter(|k: u128| self.reaches(k, parent_id.value)));
            }
            proof {
                assert(range_ids@.take(range_ids@.len() as int) =~= range_ids@);
            }
            id_set_insert(&mut request_ids, parent_id.value);
        }
        assert(id_set_contents(request_ids) =~= target);
        let ids = crate::idset::id_set_into_vec(request_ids);
        let ghost start_actions = actions@;
        let ghost mut done: Set<u128> = Set::empty();
        proof {
            assert(self.pipeline_parents() =~= kept_links(pre.pipeline_parents(), done));
            assert(self.time_range_parents() =~= kept_links(pre.time_range_parents(), done));
            assert(self.sources() =~= pre.sources().remove_keys(done));
            assert(self.deadlines() =~= pre.deadlines().remove_keys(done));
            assert(self.pipeline_requests() =~= pre.pipeline_requests().remove_keys(done));
            assert(self.pipeline_components() =~= pre.pipeline_components().remove_keys(done));
            assert(self.staged_responses() =~= pre.staged_responses().remove_keys(done));
            assert(self.time_range_requests() =~= pre.time_range_requests().remove_keys(done));
            assert(ids@.take(0) =~= Seq::<u128>::empty());
            assert(actions_view(start_actions) + cleanup_actions(ids@.take(0)) =~= actions_view(start_actions));
        }
        for i in 0..ids.len()
            invariant
                ids@.to_set() == target,
                ids@.no_duplicates(),
                target == pre.discard_set(parent_id.value),
                done == ids@.take(i as int).to_set(),
                self.discarded_from(&pre, done),
                actions_view(actions@) == actions_view(start_actions) + cleanup_actions(ids@.take(i as int)),
                pre.inv(),
                forall|id: u128| #[trigger] self.historical_bar_sources@.contains_key(id) ==> {
                    let s = self.historical_bar_sources@[id];
                    &&& s.request_id.value == id
                    &&& s.wf()
                    &&& self.source_depth@.contains_key(id)
                },
                forall|id: u128| #[trigger] self.historical_bar_deadlines@.contains_key(id)
                    ==> self.historical_bar_deadlines@[id].request.request_id.value == id,
        {
            let request_id = UUID4 { value: ids[i] };
            self.retire_historical_bar_deadline(&request_id, timer);
            self.historical_bar_sources.remove(&request_id.value);
            let ghost before_push = actions@;
            actions.push(EngineAction::CleanupRequestBarAggregators { request_id });
            proof {
                assert(actions_view(actions@) =~= actions_view(before_push).push(
                    EngineActionView::CleanupRequestBarAggregators { request_id },
                ));
            }
            self.request_pipeline_parent_request.remove(&request_id.value);
            self.request_pipeline_n_components.remove(&request_id.value);
            self.request_pipeline_responses.remove(&request_id.value);
            unlink(&mut self.request_pipeline_parent_request_id, request_id.value);
            self.time_range_pipeline_requests.remove(&request_id.value);
            unlink(&mut self.time_range_pipeline_parent_request_id, request_id.value);
            proof {
                let k = ids[i as int];
                assert(ids@.take(i + 1) =~= ids@.take(i as int).push(k));
                ids@.take(i as int).lemma_push_to_set_commute(k);
                let next = done.insert(k);
                assert(self.pipeline_parents() =~= kept_links(pre.pipeline_parents(), next));
                assert(self.time_range_parents() =~= kept_links(pre.time_range_parents(), next));
                assert(self.sources() =~= pre.sources().remove_keys(next));
                assert(self.deadlines() =~= pre.deadlines().remove_keys(next));
                assert(self.pipeline_requests() =~= pre.pipeline_requests().remove_keys(next));
                assert(self.pipeline_components() =~= pre.pipeline_components().remove_keys(next));
                assert(self.staged_responses() =~= pre.staged_responses().remove_keys(next));
                assert(self.time_range_requests() =~= pre.time_range_requests().remove_keys(next));
                assert(cleanup_actions(ids@.take(i + 1)) =~= cleanup_actions(ids@.take(i as int)).push(
                    EngineActionView::CleanupRequestBarAggregators { request_id: UUID4 { value: k } },
                ));
                assert(actions_view(actions@) =~= actions_view(start_actions) + cleanup_actions(ids@.take(i + 1)));
                done = next;
            }
        }
        proof {
            assert(ids@.take(ids@.len() as int) =~= ids@);
            assert(actions_view(actions@) == actions_view(start_actions) + cleanup_actions(ids@));
            assert forall|id: u128| #[trigger] self.historical_bar_sources@.contains_key(id) implies {
                let s = self.historical_bar_sources@[id];
                s.parent_request_id matches Some(p) ==> {
                    &&& self.historical_bar_sources@.contains_key(p.value)
                    &&& self.source_depth@[p.value] < self.source_depth@[id]
                }
            } by {
                let s = self.historical_bar_sources@[id];
                assert(pre.sources().contains_key(id));
                assert(!target.contains(id));
                if let Some(p) = s.parent_request_id {
                    if target.contains(p.value) {
                        pre.lemma_discard_set_reaches(parent_id.value, p.value);
                        let k = choose|k: nat| #[trigger] pre.ancestor(p.value, k) == Some(parent_id.value);
                        pre.lemma_ancestor_step(id, p.value, k);
                        assert(pre.ancestor(id, k + 1) == Some(parent_id.value));
                        assert(pre.reaches(id, parent_id.value));
                        assert(target.contains(id));
                    }
                }
            }
        }
    }

    /// The failure delivered to a requester, unless its scope has been closed.
    pub open spec fn failure_delivery(
        &self,
        request: RequestBarsView,
        client_id: Option<ClientId>,
        error: Seq<char>,
        now: u64,
    ) -> Seq<EngineActionView> {
        if self.scope_inactive(request.scope) {
            Seq::empty()
        } else {
            seq![EngineActionView::SendResponse {
                request_id: request.request_id,
                response: failure_response(request, client_id, error, now),
            }]
        }
    }

    /// Delivers an engine-authored failure carrying the original request intent, unless the
    /// requester's scope has been closed.
    pub fn send_historical_bar_request_failure(
        &self,
        request: RequestBars,
        client_id: Option<ClientId>,
        diagnostic: String,
        now: u64,
        actions: &mut Vec<EngineAction>,
    )
        ensures
            actions_view(final(actions)@) == actions_view(old(actions)@) + self.failure_delivery(
                request@,
                client_id,
                diagnostic@,
                now,
            ),
    {
        if self.scope_is_inactive(&request.scope) {
            assert(actions_view(actions@) =~= actions_view(actions@) + Seq::<EngineActionView>::empty());
            return;
        }
        let aggregate_bar_types = match &request.aggregation_plan {
            Some(plan) => standard_targets(plan),
            None => Vec::new(),
        };
        let request_id = request.request_id;
        let ghost request_view = request@;
        let failure = HistoricalBarsRequestFailure {
            request,
            client_id,
            error: diagnostic,
            aggregate_bar_types,
            ts_init: now,
        };
        assert(failure@.aggregate_bar_types == plan_targets(request_view.aggregation_plan));
        let ghost before = actions@;
        actions.push(EngineAction::SendResponse { request_id, response: DataResponse::BarsRequestFailed(failure) });
        assert(actions_view(actions@) =~= actions_view(before) + self.failure_delivery(
            request_view,
            client_id,
            diagnostic@,
            now,
        ));
    }

    /// `self` and `actions` are what rejecting the source tree of `request_id` with `error`
    /// leaves of `before` and `old_actions`.
    pub open spec fn rejected_from(
        &self,
        before: &Self,
        old_actions: Seq<EngineAction>,
        actions: Seq<EngineAction>,
        request_id: u128,
        error: Seq<char>,
        now: u64,
    ) -> bool {
        match before.source_root(request_id) {
            None => *self == *before && actions == old_actions,
            Some(root) => {
                let source = before.sources()[root];
                &&& self.discarded_from(before, before.discard_set(root))
                &&& exists|ids: Seq<u128>|
                    #![trigger ids.to_set()]
                    ids.no_duplicates() && ids.to_set() == before.discard_set(root)
                        && actions_view(actions) == actions_view(old_actions) + cleanup_actions(ids)
                        + (if before.scope_inactive(source.scope) {
                        Seq::<EngineActionView>::empty()
                    } else {
                        seq![EngineActionView::SendResponse {
                            request_id: source.request_id,
                            response: rejection_response(source, error, now),
                        }]
                    })
            },
        }
    }

    /// `self` is `before` with nothing changed but the outputs of the source `id`.
    pub open spec fn outputs_replaced(&self, before: &Self, id: u128) -> bool {
        &&& before.sources().contains_key(id)
        &&& self.sources() == before.sources().insert(
            id,
            HistoricalBarSource { outputs: self.sources()[id].outputs, ..before.sources()[id] },
        )
        &&& self.validates() == before.validates()
        &&& self.deadlines() == before.deadlines()
        &&& self.pipeline_requests() == before.pipeline_requests()
        &&& self.pipeline_components() == before.pipeline_components()
        &&& self.staged_responses() == before.staged_responses()
        &&& self.time_range_requests() == before.time_range_requests()
        &&& self.pipeline_parents() == before.pipeline_parents()
        &&& self.time_range_parents() == before.time_range_parents()
        &&& self.closed_scope_ids() == before.closed_scope_ids()
        &&& self.depths() == before.depths()
    }

    proof fn lemma_outputs_replaced_ancestry(&self, before: &Self, id: u128, x: u128, k: nat)
        requires
            self.outputs_replaced(before, id),
        ensures
            self.ancestor(x, k) == before.ancestor(x, k),
            self.source_root_within(x, k) == before.source_root_within(x, k),
        decreases k,
    {
        assert forall|y: u128| #[trigger] self.parent_link(y) == before.parent_link(y) by {
            if y == id {
                assert(self.sources()[y].parent_request_id == before.sources()[y].parent_request_id);
            }
        }
        if k > 0 {
            self.lemma_outputs_replaced_ancestry(before, id, x, (k - 1) as nat);
            if self.sources().contains_key(x) && self.sources()[x].parent_request_id is Some {
                let p = self.sources()[x].parent_request_id->0.value;
                self.lemma_outputs_replaced_ancestry(before, id, p, (k - 1) as nat);
            }
        }
    }

    /// Rejecting a request after only the outputs of one of its tree's sources changed is
    /// rejecting it before the change: the change leaves the ancestry alone, and the changed
    /// source is released with the rest of its tree.
    proof fn lemma_rejected_before_outputs_replaced(
        &self,
        mid: &Self,
        before: &Self,
        id: u128,
        old_actions: Seq<EngineAction>,
        actions: Seq<EngineAction>,
        error: Seq<char>,
        now: u64,
    )
        requires
            before.inv(),
            mid.outputs_replaced(before, id),
            self.rejected_from(mid, old_actions, actions, id, error, now),
        ensures
            self.rejected_from(before, old_actions, actions, id, error, now),
    {
        assert forall|x: u128, k: nat| #[trigger] mid.ancestor(x, k) == before.ancestor(x, k) by {
            mid.lemma_outputs_replaced_ancestry(before, id, x, k);
        }
        assert forall|x: u128, k: nat| #[trigger] mid.source_root_within(x, k) == before.source_root_within(x, k) by {
            mid.lemma_outputs_replaced_ancestry(before, id, x, k);
        }
        assert forall|x: u128| #[trigger] mid.source_root(x) == before.source_root(x) by {
            assert(mid.depth_of(x) == before.depth_of(x));
            assert(mid.source_root_within(x, mid.depth_of(x)) == before.source_root_within(x, before.depth_of(x)));
        }
        assert forall|x: u128, t: u128| #[trigger] mid.reaches(x, t) == before.reaches(x, t) by {
            if mid.reaches(x, t) {
                let k = choose|k: nat| #[trigger] mid.ancestor(x, k) == Some(t);
                assert(before.ancestor(x, k) == Some(t));
            }
            if before.reaches(x, t) {
                let k = choose|k: nat| #[trigger] before.ancestor(x, k) == Some(t);
                assert(mid.ancestor(x, k) == Some(t));
            }
        }
        before.lemma_source_root(id, before.depth_of(id));
        let root = before.source_root(id)->0;
        assert(mid.source_root(id) == Some(root));
        assert(mid.discard_set(root) =~= before.discard_set(root));
        assert(before.discard_set(root).contains(id));
        assert(mid.sources().remove_keys(before.discard_set(root)) =~= before.sources().remove_keys(
            before.discard_set(root),
        ));
        assert(rejection_response(mid.sources()[root], error, now) == rejection_response(
            before.sources()[root],
            error,
            now,
        ));
    }

    /// Rejects the original source tree of `request_id`: releases it, then answers the original
    /// request with an empty response naming the error, unless its scope has been closed.
    pub fn reject_historical_bar_source<T: HistoricalBarTimer>(
        &mut self,
        request_id: UUID4,
        error: &str,
        now: u64,
        timer: &mut T,
        actions: &mut Vec<EngineAction>,
    )
        requires
            old(self).inv(),
        ensures
            final(self).inv(),
            final(self).rejected_from(old(self), old(actions)@, final(actions)@, request_id.value, error@, now),
    {
        let source = match self.original_historical_bar_source(request_id) {
            Some(s) => s,
            None => return,
        };
        let ghost root = source.request_id.value;
        let ghost root_source = *source;
        proof {
            self.lemma_source_root(request_id.value, self.depth_of(request_id.value));
        }
        let parent_id = source.request_id;
        let client_id = source.client_id;
        let bar_type = source.bar_type;
        let start_ns = source.start_ns;
        let end_ns = source.end_ns;
        let scope = source.scope;
        let mut params = match &source.params {
            Some(p) => p.clone(),
            None => Params::new(),
        };
        let aggregate_bar_types = match &source.aggregation {
            Some(state) => standard_targets(&state.bar_types),
            None => Vec::new(),
        };
        self.discard_historical_bar_sources(parent_id, timer, actions);
        if self.scope_is_inactive(&scope) {
            let ghost ids = choose|ids: Seq<u128>|
                #![trigger ids.to_set()]
                ids.no_duplicates() && ids.to_set() == old(self).discard_set(root)
                    && actions_view(actions@) == actions_view(old(actions)@) + cleanup_actions(ids);
            assert(actions_view(actions@) =~= actions_view(old(actions)@) + cleanup_actions(ids)
                + Seq::<EngineActionView>::empty());
            return;
        }
        params.insert(String::from_str("historical_bar_source_error"), ParamValue::Text(String::from_str(error)));
        let mut bars = BarsResponse::new(
            parent_id,
            client_id,
            bar_type,
            Vec::new(),
            Some(start_ns),
            Some(end_ns),
            now,
            Some(params),
        );
        bars.historical_outcome = Some(HistoricalBarsOutcome::Failed {
            error: String::from_str(error),
            aggregate_bar_types,
        });
        let ghost before = actions@;
        actions.push(EngineAction::SendResponse { request_id: parent_id, response: DataResponse::Bars(bars) });
        proof {
            let ids = choose|ids: Seq<u128>|
                #![trigger ids.to_set()]
                ids.no_duplicates() && ids.to_set() == old(self).discard_set(root)
                    && actions_view(before) == actions_view(old(actions)@) + cleanup_actions(ids);
            assert(bars@.data =~= Seq::<crate::model::Bar>::empty());
            assert(actions_view(actions@) =~= actions_view(old(actions)@) + cleanup_actions(ids)
                + seq![EngineActionView::SendResponse {
                request_id: root_source.request_id,
                response: rejection_response(root_source, error@, now),
            }]);
        }
    }

    /// `e` is the expiry of some pending request and no later than any other.
    pub open spec fn is_earliest(&self, e: u64) -> bool {
        &&& exists|id: u128| #[trigger] self.deadlines().contains_key(id) && self.deadlines()[id].expires_at == e
        &&& forall|id: u128| #[trigger] self.deadlines().contains_key(id) ==> e <= self.deadlines()[id].expires_at
    }

    /// An alert firing at `next` fires after `now` and no later than every pending deadline, with
    /// some request pending.
    pub open spec fn alert_in_time(&self, next: Option<u64>, now: u64) -> bool {
        &&& !self.deadlines().is_empty()
        &&& next is Some
        &&& next->0 > now
        &&& forall|id: u128| #[trigger] self.deadlines().contains_key(id) ==> next->0 <= self.deadlines()[id].expires_at
    }

    /// The earliest original deadline, if any request is pending.
    pub open spec fn earliest_expiry(&self) -> Option<u64> {
        if self.deadlines().is_empty() {
            None
        } else {
            Some(choose|e: u64| #[trigger] self.is_earliest(e))
        }
    }

    /// The earliest original deadline, if any request is pending.
    pub fn earliest_historical_bar_deadline(&self) -> (r: Option<u64>)
        ensures
            r == self.earliest_expiry(),
            r matches Some(e) ==> (exists|id: u128| #[trigger] self.deadlines().contains_key(id)
                && self.deadlines()[id].expires_at == e) && (forall|id: u128| #[trigger]
                self.deadlines().contains_key(id) ==> e <= self.deadlines()[id].expires_at),
    {
        let ids = map_keys(&self.historical_bar_deadlines);
        let mut best: Option<u64> = None;
        for i in 0..ids.len()
            invariant
                ids@.to_set() == self.deadlines().dom(),
                match best {
                    None => i == 0,
                    Some(e) => (exists|id: u128| #[trigger] self.deadlines().contains_key(id)
                        && self.deadlines()[id].expires_at == e) && (forall|j: int| 0 <= j < i
                        ==> e <= #[trigger] self.deadlines()[ids@[j]].expires_at),
                },
        {
            let id = ids[i];
            assert(self.deadlines().contains_key(id)) by {
                assert(ids@.to_set().contains(id));
            }
            let expires = match self.historical_bar_deadlines.get(&id) {
                Some(d) => d.expires_at,
                None => 0,
            };
            best = match best {
                Some(e) => if expires < e { Some(expires) } else { Some(e) },
                None => Some(expires),
            };
        }
        match best {
            None => {
                assert(ids@.len() == 0);
                assert(self.deadlines().dom() =~= Set::empty()) by {
                    assert forall|id: u128| !self.deadlines().contains_key(id) by {
                        if self.deadlines().contains_key(id) {
                            assert(ids@.to_set().contains(id));
                        }
                    }
                }
                None
            },
            Some(e) => {
                assert forall|id: u128| #[trigger] self.deadlines().contains_key(id) implies e
                    <= self.deadlines()[id].expires_at by {
                    assert(ids@.to_set().contains(id));
                    let j = choose|j: int| 0 <= j < ids@.len() && ids@[j] == id;
                }
                assert(!self.deadlines().is_empty());
                assert(self.is_earliest(e));
                let ghost chosen = choose|x: u64| #[trigger] self.is_earliest(x);
                assert(chosen == e) by {
                    let a = choose|id: u128| #[trigger] self.deadlines().contains_key(id) && self.deadlines()[id].expires_at == chosen;
                    let b = choose|id: u128| #[trigger] self.deadlines().contains_key(id) && self.deadlines()[id].expires_at == e;
                }
                Some(e)
            },
        }
    }

    /// What the shared alert needs, given when it fires next: cancelled when no request is
    /// pending, kept when it fires after `now` and no later than the earliest deadline, else
    /// armed at that deadline.
    pub fn historical_bar_timer_decision(&self, now: u64, next: Option<u64>) -> (r: TimerDecision)
        ensures
            r == timer_decision(self.earliest_expiry(), next, now),
            !self.deadlines().is_empty() ==> self.is_earliest(self.earliest_expiry()->0),
    {
        match self.earliest_historical_bar_deadline() {
            None => TimerDecision::Cancel,
            Some(deadline) => match next {
                Some(n) => if n > now && n <= deadline {
                    TimerDecision::Keep
                } else {
                    TimerDecision::Arm { alert_time_ns: deadline }
                },
                None => TimerDecision::Arm { alert_time_ns: deadline },
            },
        }
    }

    /// Keeps one shared alert armed no later than the earliest original deadline, and cancels
    /// it when no request is pending. Only arming can fail, with the timer's own error.
    pub fn maintain_historical_bar_timeout<T: HistoricalBarTimer>(&self, now: u64, timer: &mut T) -> (r: Result<(), String>)
        ensures
            self.deadlines().is_empty() ==> r is Ok && final(timer).next_alert() is None,
            self.alert_in_time(old(timer).next_alert(), now) ==> r is Ok && *final(timer) == *old(timer),
            !self.deadlines().is_empty() && !self.alert_in_time(old(timer).next_alert(), now) && r is Ok
                ==> final(timer).next_alert() is Some && self.is_earliest(final(timer).next_alert()->0),
            !self.deadlines().is_empty() && r is Ok ==> final(timer).next_alert() is Some && {
                let n = final(timer).next_alert()->0;
                &&& n > now || self.is_earliest(n)
                &&& forall|id: u128| #[trigger] self.deadlines().contains_key(id) ==> n <= self.deadlines()[id].expires_at
            },
    {
        let next = if self.historical_bar_deadlines.is_empty() {
            None
        } else {
            timer.next_time_ns()
        };
        match self.historical_bar_timer_decision(now, next) {
            TimerDecision::Cancel => {
                timer.cancel_timer();
                Ok(())
            },
            TimerDecision::Keep => Ok(()),
            TimerDecision::Arm { alert_time_ns } => timer.set_time_alert_ns(alert_time_ns),
        }
    }

    /// Freezes the original timeout budget and arms the shared alert before transport.
    pub fn capture_historical_bar_deadline<T: HistoricalBarTimer>(
        &mut self,
        request: &RequestBars,
        client_id: ClientId,
        now: u64,
        command_endpoint: bool,
        timer: &mut T,
    ) -> (r: Result<(), AdmissionError>)
        requires
            old(self).inv(),
        ensures
            final(self).inv(),
            final(self).sources() == old(self).sources(),
            final(self).validates() == old(self).validates(),
            final(self).pipeline_parents() == old(self).pipeline_parents(),
            final(self).time_range_parents() == old(self).time_range_parents(),
            final(self).pipeline_requests() == old(self).pipeline_requests(),
            final(self).pipeline_components() == old(self).pipeline_components(),
            final(self).staged_responses() == old(self).staged_responses(),
            final(self).time_range_requests() == old(self).time_range_requests(),
            final(self).closed_scope_ids() == old(self).closed_scope_ids(),
            final(self).depths() == old(self).depths(),
            r is Ok ==> final(timer).next_alert() is Some && forall|id: u128| #[trigger] final(self).deadlines().contains_key(id)
                ==> final(timer).next_alert()->0 <= final(self).deadlines()[id].expires_at,
            match deadline_plan(request@, now, command_endpoint) {
                Err(e) => r == Err::<(), AdmissionError>(e) && final(self).deadlines() == old(self).deadlines(),
                Ok((expires_at, timeout_ms)) => match r {
                    Ok(()) => {
                        &&& final(self).deadlines().dom() == old(self).deadlines().dom().insert(request.request_id.value)
                        &&& deadline_is(final(self).deadlines()[request.request_id.value], request@, client_id, expires_at, timeout_ms)
                        &&& forall|id: u128| id != request.request_id.value && #[trigger] old(self).deadlines().contains_key(id)
                            ==> final(self).deadlines()[id] == old(self).deadlines()[id]
                    },
                    Err(e) => e is Timer && final(self).deadlines() == old(self).deadlines().remove(request.request_id.value),
                },
            },
    {
        let timeout_ms = match &request.params {
            Some(params) => match params.get("historical_bars_timeout_ms") {
                Some(value) => match value.as_u64() {
                    Some(v) => if v > 0 {
                        v
                    } else {
                        return Err(AdmissionError::InvalidTimeout);
                    },
                    None => return Err(AdmissionError::InvalidTimeout),
                },
                None => HISTORICAL_BAR_DEFAULT_TIMEOUT_MS,
            },
            None => HISTORICAL_BAR_DEFAULT_TIMEOUT_MS,
        };
        let timeout_ns = match timeout_ms.checked_mul(NANOSECONDS_IN_MILLISECOND) {
            Some(t) => t,
            None => return Err(AdmissionError::TimeoutOverflowsNanoseconds),
        };
        let expires_at = match now.checked_add(timeout_ns) {
            Some(e) => e,
            None => return Err(AdmissionError::DeadlineOverflows),
        };
        if !command_endpoint {
            return Err(AdmissionError::MissingCommandEndpoint);
        }
        self.historical_bar_deadlines.insert(
            request.request_id.value,
            HistoricalBarDeadline { request: request.clone(), client_id, expires_at, timeout_ms },
        );
        let armed = self.maintain_historical_bar_timeout(now, timer);
        let r = self.settle_historical_bar_deadline(request.request_id, armed, timer);
        proof {
            if r is Err {
                assert(self.deadlines() =~= old(self).deadlines().remove(request.request_id.value));
            }
        }
        r
    }

    /// Settles a freshly stored deadline on the result of arming the shared alert for it: kept
    /// when the alert is armed, else retired, with the alert's diagnostic as the error.
    pub fn settle_historical_bar_deadline<T: HistoricalBarTimer>(
        &mut self,
        request_id: UUID4,
        armed: Result<(), String>,
        timer: &mut T,
    ) -> (r: Result<(), AdmissionError>)
        requires
            old(self).inv(),
        ensures
            final(self).inv(),
            armed is Ok ==> r is Ok && *final(self) == *old(self) && *final(timer) == *old(timer),
            armed matches Err(e) ==> {
                &&& r == Err::<(), AdmissionError>(AdmissionError::Timer(e))
                &&& final(self).deadlines() == old(self).deadlines().remove(request_id.value)
                &&& final(self).sources() == old(self).sources()
                &&& final(self).validates() == old(self).validates()
                &&& final(self).pipeline_requests() == old(self).pipeline_requests()
                &&& final(self).pipeline_components() == old(self).pipeline_components()
                &&& final(self).staged_responses() == old(self).staged_responses()
                &&& final(self).time_range_requests() == old(self).time_range_requests()
                &&& final(self).pipeline_parents() == old(self).pipeline_parents()
                &&& final(self).time_range_parents() == old(self).time_range_parents()
                &&& final(self).closed_scope_ids() == old(self).closed_scope_ids()
                &&& final(self).depths() == old(self).depths()
            },
    {
        match armed {
            Ok(()) => Ok(()),
            Err(e) => {
                self.retire_historical_bar_deadline(&request_id, timer);
                Err(AdmissionError::Timer(e))
            },
        }
    }

    /// The pipeline parent of a request: its request-pipeline parent, else its time-range
    /// parent.
    pub open spec fn pipeline_parent_of(&self, id: u128) -> Option<UUID4> {
        if self.pipeline_parents().contains_key(id) {
            Some(self.pipeline_parents()[id])
        } else if self.time_range_parents().contains_key(id) {
            Some(self.time_range_parents()[id])
        } else {
            None
        }
    }

    /// Captures the source of an original request, or of a pipeline child under its captured
    /// parent, before dispatch; an original request also gets its deadline.
    ///
    /// With validation off, or for requests other than bars, nothing is captured.
    pub fn capture_historical_bar_source<T: HistoricalBarTimer>(
        &mut self,
        request: &RequestCommand,
        client_id: ClientId,
        now: u64,
        command_endpoint: bool,
        timer: &mut T,
    ) -> (r: Result<(), AdmissionError>)
        requires
            old(self).inv(),
        ensures
            final(self).inv(),
            !old(self).validates() || !(request is Bars) ==> r is Ok && *final(self) == *old(self),
            final(self).validates() == old(self).validates(),
            final(self).pipeline_parents() == old(self).pipeline_parents(),
            final(self).time_range_parents() == old(self).time_range_parents(),
            final(self).closed_scope_ids() == old(self).closed_scope_ids(),
            old(self).validates() && request is Bars ==> {
                let req = request->Bars_0;
                let id = req.request_id.value;
                let parent = old(self).pipeline_parent_of(id);
                let scope = match parent {
                    Some(p) => if old(self).sources().contains_key(p.value) {
                        old(self).sources()[p.value].scope
                    } else {
                        req.scope
                    },
                    None => req.scope,
                };
                match spec_coverage(req@, parent is Some) {
                    Err(e) => r == Err::<(), AdmissionError>(AdmissionError::Source(e)) && final(self).sources() == old(self).sources()
                        && final(self).deadlines() == old(self).deadlines(),
                    Ok(c) => if parent is Some && !old(self).sources().contains_key(parent->0.value) {
                        r == Err::<(), AdmissionError>(AdmissionError::NoOriginalParent) && final(self).sources() == old(self).sources()
                            && final(self).deadlines() == old(self).deadlines()
                    } else if old(self).scope_inactive(scope) {
                        r == Err::<(), AdmissionError>(AdmissionError::ScopeInactive) && final(self).sources() == old(self).sources()
                            && final(self).deadlines() == old(self).deadlines()
                    } else if old(self).sources().contains_key(id) {
                        r == Err::<(), AdmissionError>(AdmissionError::AlreadyActive) && final(self).sources() == old(self).sources()
                            && final(self).deadlines() == old(self).deadlines()
                    } else if parent is None && deadline_plan(req@, now, command_endpoint) is Err {
                        &&& r == Err::<(), AdmissionError>(deadline_plan(req@, now, command_endpoint)->Err_0)
                        &&& final(self).sources() == old(self).sources()
                        &&& final(self).deadlines() == old(self).deadlines()
                    } else {
                        &&& r is Ok ==> {
                            &&& final(self).sources().dom() == old(self).sources().dom().insert(id)
                            &&& forall|k: u128| k != id && #[trigger] old(self).sources().contains_key(k)
                                ==> final(self).sources()[k] == old(self).sources()[k]
                            &&& {
                                let s = final(self).sources()[id];
                                &&& s.request_id == req.request_id
                                &&& s.client_id == client_id
                                &&& s.bar_type == req.bar_type
                                &&& s.start_ns == c.start_ns
                                &&& s.end_ns == c.end_ns
                                &&& s.first_close_ns == c.first_close_ns
                                &&& s.last_close_ns == c.last_close_ns
                                &&& s.expected_count == c.expected_count
                                &&& s.output_limit == c.limit
                                &&& s.parent_request_id == parent
                                &&& s.scope == scope
                                &&& params_view(s.params) == req@.params
                                &&& s.aggregation is None
                            }
                            &&& parent is None ==> {
                                let (expires_at, timeout_ms) = deadline_plan(req@, now, command_endpoint)->Ok_0;
                                &&& final(self).deadlines().dom() == old(self).deadlines().dom().insert(id)
                                &&& deadline_is(final(self).deadlines()[id], req@, client_id, expires_at, timeout_ms)
                            }
                            &&& parent is Some ==> final(self).deadlines() == old(self).deadlines()
                        }
                        &&& r is Err ==> parent is None && r->Err_0 is Timer && final(self).sources() == old(self).sources()
                            && final(self).deadlines() == old(self).deadlines().remove(id)
                    },
                }
            },
    {
        if !self.validate_historical_bars {
            return Ok(());
        }
        let request = match request {
            RequestCommand::Bars(r) => r,
            RequestCommand::Other { .. } => return Ok(()),
        };
        let id = request.request_id;
        let parent_request_id = match self.request_pipeline_parent_request_id.get(&id.value) {
            Some(p) => Some(*p),
            None => match self.time_range_pipeline_parent_request_id.get(&id.value) {
                Some(p) => Some(*p),
                None => None,
            },
        };
        let admitted = if parent_request_id.is_some() {
            HistoricalBarSource::for_child(request, client_id)
        } else {
            HistoricalBarSource::new(request, client_id)
        };
        let mut source = match admitted {
            Ok(s) => s,
            Err(e) => return Err(AdmissionError::Source(e)),
        };
        source.parent_request_id = parent_request_id;
        let ghost mut parent_depth: nat = 0;
        if let Some(parent_id) = parent_request_id {
            match self.historical_bar_sources.get(&parent_id.value) {
                Some(parent) => {
                    source.scope = parent.scope;
                    proof {
                        parent_depth = self.source_depth@[parent_id.value];
                    }
                },
                None => return Err(AdmissionError::NoOriginalParent),
            }
        }
        if self.scope_is_inactive(&source.scope) {
            return Err(AdmissionError::ScopeInactive);
        }
        if self.historical_bar_sources.contains_key(&id.value) {
            return Err(AdmissionError::AlreadyActive);
        }
        if parent_request_id.is_none() {
            match self.capture_historical_bar_deadline(request, client_id, now, command_endpoint, timer) {
                Ok(()) => {},
                Err(e) => return Err(e),
            }
        }
        self.historical_bar_sources.insert(id.value, source);
        proof {
            self.source_depth@ = self.source_depth@.insert(
                id.value,
                if parent_request_id is Some { parent_depth + 1 } else { 0 },
            );
        }
        Ok(())
    }

    /// A pending original request has run out of budget at `now`, or its requester's scope has
    /// been closed.
    pub open spec fn is_expired(&self, d: HistoricalBarDeadline, now: u64) -> bool {
        d.expires_at <= now || self.scope_inactive(d.request@.scope)
    }

    /// Some parent in `ps` is reached from `x` in `self`.
    pub open spec fn reaches_some(&self, x: u128, ps: Seq<u128>) -> bool {
        exists|j: int| 0 <= j < ps.len() && #[trigger] self.reaches(x, ps[j])
    }

    /// The requests that releasing the trees of `ps` in turn releases (with validation on): the
    /// captured sources and frozen pipeline intents under one of them, and the parents.
    pub open spec fn released_set(&self, ps: Seq<u128>) -> Set<u128> {
        (self.sources().dom() + self.pipeline_requests().dom() + self.time_range_requests().dom()).filter(
            |x: u128| self.reaches_some(x, ps),
        ) + ps.to_set()
    }

    /// `self` is what releasing the source trees of `ps`, one after another, leaves of `before`
    /// (with validation on): nothing new is reachable; every entry is one of `before`; an entry
    /// under none of `ps` stays; and no captured source, frozen pipeline intent, deadline or
    /// staging of a released tree is left.
    pub open spec fn released_in_turn(&self, before: &Self, ps: Seq<u128>) -> bool {
        &&& self.validates() == before.validates()
        &&& self.closed_scope_ids() == before.closed_scope_ids()
        &&& self.depths() == before.depths()
        &&& forall|x: u128, t: u128| #[trigger] self.reaches(x, t) ==> before.reaches(x, t) || before.reaches_some(x, ps)
        &&& forall|x: u128, t: u128| #[trigger] before.reaches(x, t) ==> self.reaches(x, t) || before.reaches_some(x, ps)
        &&& forall|j: int, x: u128| 0 <= j < ps.len() && #[trigger] before.reaches(x, ps[j]) ==> {
            &&& !self.sources().contains_key(x)
            &&& !self.pipeline_requests().contains_key(x)
            &&& !self.time_range_requests().contains_key(x)
        }
        &&& self.sources().submap_of(before.sources())
        &&& self.deadlines().submap_of(before.deadlines())
        &&& self.pipeline_requests().submap_of(before.pipeline_requests())
        &&& self.pipeline_components().submap_of(before.pipeline_components())
        &&& self.staged_responses().submap_of(before.staged_responses())
        &&& self.time_range_requests().submap_of(before.time_range_requests())
        &&& forall|x: u128| #[trigger] before.sources().contains_key(x) && !before.reaches_some(x, ps)
            ==> self.sources().contains_key(x)
        &&& forall|x: u128| #[trigger] before.deadlines().contains_key(x) && !before.reaches_some(x, ps)
            ==> self.deadlines().contains_key(x)
        &&& forall|x: u128| #[trigger] before.pipeline_requests().contains_key(x) && !before.reaches_some(x, ps)
            ==> self.pipeline_requests().contains_key(x)
        &&& forall|x: u128| #[trigger] before.pipeline_components().contains_key(x) && !before.reaches_some(x, ps)
            ==> self.pipeline_components().contains_key(x)
        &&& forall|x: u128| #[trigger] before.staged_responses().contains_key(x) && !before.reaches_some(x, ps)
            ==> self.staged_responses().contains_key(x)
        &&& forall|x: u128| #[trigger] before.time_range_requests().contains_key(x) && !before.reaches_some(x, ps)
            ==> self.time_range_requests().contains_key(x)
        &&& forall|j: int, x: u128| 0 <= j < ps.len() && #[trigger] self.reaches(x, ps[j]) ==> {
            &&& !self.sources().contains_key(x)
            &&& !self.pipeline_requests().contains_key(x)
            &&& !self.time_range_requests().contains_key(x)
        }
        &&& forall|j: int| 0 <= j < ps.len() ==> !self.deadlines().contains_key(#[trigger] ps[j])
            && !self.staged_responses().contains_key(ps[j])
    }

    /// The failure deliveries of the requests `failed`, each with its client and diagnostic, in
    /// order; a request whose scope has been closed gets none.
    pub open spec fn failure_deliveries(
        &self,
        failed: Seq<(RequestBarsView, ClientId, Seq<char>)>,
        now: u64,
    ) -> Seq<EngineActionView>
        decreases failed.len(),
    {
        if failed.len() == 0 {
            Seq::empty()
        } else {
            let f = failed.last();
            self.failure_deliveries(failed.drop_last(), now) + self.failure_delivery(f.0, Some(f.1), f.2, now)
        }
    }

    /// The requests of `states`, each with its client and the diagnostic of the same position.
    pub open spec fn failed_requests(states: Seq<HistoricalBarDeadline>, errors: Seq<String>) -> Seq<
        (RequestBarsView, ClientId, Seq<char>),
    > {
        states.map(|i: int, d: HistoricalBarDeadline| (d.request@, d.client_id, errors[i]@))
    }

    proof fn lemma_concat_to_set(a: Seq<u128>, b: Seq<u128>)
        ensures
            (a + b).to_set() == a.to_set() + b.to_set(),
    {
        assert forall|x: u128| (a + b).to_set().contains(x) <==> a.to_set().contains(x) || b.to_set().contains(x) by {
            if (a + b).to_set().contains(x) {
                let i = choose|i: int| 0 <= i < (a + b).len() && (a + b)[i] == x;
                if i >= a.len() {
                    assert(b[i - a.len()] == x);
                }
            }
            if b.to_set().contains(x) {
                let i = choose|i: int| 0 <= i < b.len() && b[i] == x;
                assert((a + b)[i + a.len()] == x);
            }
            if a.to_set().contains(x) {
                let i = choose|i: int| 0 <= i < a.len() && a[i] == x;
                assert((a + b)[i] == x);
            }
        }
        assert((a + b).to_set() =~= a.to_set() + b.to_set());
    }

    proof fn lemma_disjoint_concat(a: Seq<u128>, b: Seq<u128>)
        requires
            a.no_duplicates(),
            b.no_duplicates(),
            a.to_set().disjoint(b.to_set()),
        ensures
            (a + b).no_duplicates(),
    {
        assert forall|i: int, j: int| 0 <= i < j < (a + b).len() implies (a + b)[i] != (a + b)[j] by {
            if i < a.len() && j >= a.len() {
                assert(a.to_set().contains(a[i]));
                assert(b.to_set().contains(b[j - a.len()]));
            } else if i >= a.len() {
                assert((a + b)[i] == b[i - a.len()]);
                assert((a + b)[j] == b[j - a.len()]);
            }
        }
    }

    /// No request of `ps` is another one of them or lies under another one, in `self`.
    pub open spec fn apart(&self, ps: Seq<u128>) -> bool {
        forall|i: int, j: int|
            0 <= i < ps.len() && 0 <= j < ps.len() && i != j ==> !#[trigger] self.reaches(ps[i], ps[j])
    }

    /// Requests apart from each other stay apart in any prefix.
    proof fn lemma_apart_prefix(&self, ps: Seq<u128>, n: int)
        requires
            self.apart(ps),
            0 <= n <= ps.len(),
        ensures
            self.apart(ps.take(n)),
    {
        assert forall|a: int, b: int|
            0 <= a < n && 0 <= b < n && a != b implies !#[trigger] self.reaches(ps.take(n)[a], ps.take(n)[b]) by {
            assert(ps.take(n)[a] == ps[a]);
            assert(ps.take(n)[b] == ps[b]);
            assert(!self.reaches(ps[a], ps[b]));
        }
    }

    /// A request apart from the ones released before it releases none of theirs again.
    proof fn lemma_release_step_is_fresh(pre: &Self, s: &Self, ps: Seq<u128>, q: u128)
        requires
            pre.validates(),
            s.released_in_turn(pre, ps),
            pre.apart(ps.push(q)),
        ensures
            pre.released_set(ps).disjoint(s.discard_set(q)),
    {
        let qs = ps.push(q);
        assert forall|x: u128| #[trigger] s.discard_set(q).contains(x) implies !pre.released_set(ps).contains(x) by {
            if x == q {
                assert forall|j: int| 0 <= j < ps.len() implies !#[trigger] pre.reaches(q, ps[j]) by {
                    assert(qs[j] == ps[j]);
                    assert(qs[ps.len() as int] == q);
                    assert(!pre.reaches(qs[ps.len() as int], qs[j]));
                }
                assert forall|j: int| 0 <= j < ps.len() implies #[trigger] ps[j] != q by {
                    assert(qs[j] == ps[j]);
                    assert(qs[ps.len() as int] == q);
                    assert(pre.ancestor(ps[j], 0) == Some(ps[j]));
                    assert(!pre.reaches(qs[j], qs[ps.len() as int]));
                }
            } else {
                assert(s.sources().contains_key(x) || s.pipeline_requests().contains_key(x)
                    || s.time_range_requests().contains_key(x));
                assert forall|j: int| 0 <= j < ps.len() implies !#[trigger] pre.reaches(x, ps[j]) by {}
                assert forall|j: int| 0 <= j < ps.len() implies #[trigger] ps[j] != x by {
                    assert(pre.ancestor(ps[j], 0) == Some(ps[j]));
                    assert(pre.reaches(ps[j], ps[j]));
                }
            }
        }
    }

    /// Releasing `q` after `ps` releases what `ps` released and the discard set of `q`.
    proof fn lemma_released_set_step(pre: &Self, s: &Self, ps: Seq<u128>, q: u128)
        requires
            pre.validates(),
            s.released_in_turn(pre, ps),
        ensures
            pre.released_set(ps.push(q)) == pre.released_set(ps) + s.discard_set(q),
    {
        let qs = ps.push(q);
        assert forall|x: u128| #[trigger] pre.reaches_some(x, ps) implies pre.reaches_some(x, qs) by {
            let j = choose|j: int| 0 <= j < ps.len() && #[trigger] pre.reaches(x, ps[j]);
            assert(qs[j] == ps[j]);
        }
        assert forall|x: u128| #[trigger] pre.reaches(x, q) implies pre.reaches_some(x, qs) by {
            assert(qs[ps.len() as int] == q);
        }
        assert forall|x: u128| #[trigger] pre.reaches_some(x, qs) && !pre.reaches(x, q) implies pre.reaches_some(x, ps) by {
            let j = choose|j: int| 0 <= j < qs.len() && #[trigger] pre.reaches(x, qs[j]);
            assert(j < ps.len());
            assert(qs[j] == ps[j]);
        }
        assert(qs.to_set() =~= ps.to_set().insert(q)) by {
            ps.lemma_push_to_set_commute(q);
        }
        assert forall|x: u128| pre.released_set(qs).contains(x) <==> pre.released_set(ps).contains(x)
            || s.discard_set(q).contains(x) by {
            if s.discard_set(q).contains(x) {
                s.lemma_discard_set_reaches(q, x);
                if x != q {
                    assert(pre.reaches(x, q) || pre.reaches_some(x, ps));
                }
            }
            if pre.released_set(qs).contains(x) && !pre.released_set(ps).contains(x) && x != q {
                assert(pre.reaches(x, q));
                assert(!pre.reaches_some(x, ps));
                assert(s.reaches(x, q));
            }
        }
        assert(pre.released_set(qs) =~= pre.released_set(ps) + s.discard_set(q));
    }

    /// A link between two requests outside a release stays.
    proof fn lemma_link_kept(s: &Self, s2: &Self, q: u128, y: u128, z: u128)
        requires
            s2.discarded_from(s, s.discard_set(q)),
            !s.discard_set(q).contains(y),
            !s.discard_set(q).contains(z),
            s.parent_link(y) == Some(z),
        ensures
            s2.parent_link(y) == Some(z),
    {
    }

    /// A path that does not pass through the release of `q` stays.
    proof fn lemma_path_kept(s: &Self, s2: &Self, q: u128, x: u128, k: nat)
        requires
            s2.discarded_from(s, s.discard_set(q)),
            s.ancestor(x, k) is Some,
            !s.reaches(x, q),
        ensures
            s2.ancestor(x, k) == s.ancestor(x, k),
        decreases k,
    {
        if k > 0 {
            let j = (k - 1) as nat;
            Self::lemma_path_kept(s, s2, q, x, j);
            let y = s.ancestor(x, j)->0;
            let z = s.ancestor(x, k)->0;
            assert(s.parent_link(y) == Some(z));
            if s.discard_set(q).contains(y) {
                s.lemma_discard_set_reaches(q, y);
                let m = choose|m: nat| #[trigger] s.ancestor(y, m) == Some(q);
                s.lemma_ancestor_compose(x, j, y, m);
                assert(s.ancestor(x, j + m) == Some(q));
            }
            if s.discard_set(q).contains(z) {
                s.lemma_discard_set_reaches(q, z);
                let m = choose|m: nat| #[trigger] s.ancestor(z, m) == Some(q);
                s.lemma_ancestor_compose(x, k, z, m);
                assert(s.ancestor(x, k + m) == Some(q));
            }
            Self::lemma_link_kept(s, s2, q, y, z);
        }
    }

    /// Nothing of `before` is reachable anymore from a request that stays, and nothing new is
    /// reachable at all.
    proof fn lemma_release_step(pre: &Self, s: &Self, s2: &Self, ps: Seq<u128>, q: u128)
        requires
            pre.validates(),
            s.released_in_turn(pre, ps),
            s2.discarded_from(s, s.discard_set(q)),
        ensures
            s2.released_in_turn(pre, ps.push(q)),
    {
        let qs = ps.push(q);
        assert forall|x: u128| #[trigger] pre.reaches_some(x, ps) implies pre.reaches_some(x, qs) by {
            let j = choose|j: int| 0 <= j < ps.len() && #[trigger] pre.reaches(x, ps[j]);
            assert(qs[j] == ps[j]);
        }
        assert forall|x: u128| #[trigger] pre.reaches(x, q) implies pre.reaches_some(x, qs) by {
            assert(qs[ps.len() as int] == q);
        }
        assert forall|x: u128| #[trigger] pre.reaches_some(x, qs) && !pre.reaches(x, q) implies pre.reaches_some(x, ps) by {
            let j = choose|j: int| 0 <= j < qs.len() && #[trigger] pre.reaches(x, qs[j]);
            assert(j < ps.len());
            assert(qs[j] == ps[j]);
        }
        // Reachability in `s2` comes from `s`, or from reaching the released parent in `s`.
        assert forall|x: u128, t: u128| #[trigger] s2.reaches(x, t) implies s.reaches(x, t) || s.reaches(x, q) by {
            let k = choose|k: nat| #[trigger] s2.ancestor(x, k) == Some(t);
            Self::lemma_released_ancestry(s, s2, q, x, k);
        }
        assert forall|x: u128, t: u128| #[trigger] s2.reaches(x, t) implies pre.reaches(x, t) || pre.reaches_some(x, qs) by {
            if s.reaches(x, t) {
            } else {
                assert(s.reaches(x, q));
            }
        }
        // Paths of `before` survive in `s2` unless they lead under a released parent.
        assert forall|x: u128, t: u128| #[trigger] pre.reaches(x, t) implies s2.reaches(x, t) || pre.reaches_some(x, qs) by {
            if !pre.reaches_some(x, ps) {
                assert(s.reaches(x, t));
                if s.reaches(x, q) {
                    assert(pre.reaches(x, q) || pre.reaches_some(x, ps));
                } else {
                    let k = choose|k: nat| #[trigger] s.ancestor(x, k) == Some(t);
                    Self::lemma_path_kept(s, s2, q, x, k);
                    assert(s2.ancestor(x, k) == Some(t));
                }
            }
        }
        // Whatever reached a released parent in `before` is gone.
        assert forall|j: int, x: u128| 0 <= j < qs.len() && #[trigger] pre.reaches(x, qs[j]) implies {
            &&& !s2.sources().contains_key(x)
            &&& !s2.pipeline_requests().contains_key(x)
            &&& !s2.time_range_requests().contains_key(x)
        } by {
            if j < ps.len() {
                assert(qs[j] == ps[j]);
            } else {
                assert(qs[j] == q);
                if s.reaches(x, q) {
                    if s.sources().contains_key(x) || s.pipeline_requests().contains_key(x)
                        || s.time_range_requests().contains_key(x) {
                        assert(s.discard_set(q).contains(x));
                    }
                } else {
                    let i = choose|i: int| 0 <= i < ps.len() && #[trigger] pre.reaches(x, ps[i]);
                    assert(pre.reaches(x, ps[i]));
                }
            }
        }
        // An entry under none of the parents is not in the discard set of `q`.
        assert forall|x: u128| !pre.reaches_some(x, qs) implies !s.discard_set(q).contains(x) by {
            if s.discard_set(q).contains(x) {
                s.lemma_discard_set_reaches(q, x);
                assert(pre.reaches(x, q) || pre.reaches_some(x, ps));
            }
        }
        // A remaining entry cannot reach a released parent.
        assert forall|j: int, x: u128| 0 <= j < qs.len() && #[trigger] s2.reaches(x, qs[j]) implies {
            &&& !s2.sources().contains_key(x)
            &&& !s2.pipeline_requests().contains_key(x)
            &&& !s2.time_range_requests().contains_key(x)
        } by {
            if j < ps.len() {
                assert(qs[j] == ps[j]);
                if s.reaches(x, ps[j]) {
                } else {
                    assert(s.reaches(x, q));
                    if s2.sources().contains_key(x) || s2.pipeline_requests().contains_key(x)
                        || s2.time_range_requests().contains_key(x) {
                        assert(s.discard_set(q).contains(x));
                    }
                }
            } else {
                assert(qs[j] == q);
                Self::law_release_leaves_nothing_under_parent(s, s2, q);
            }
        }
        assert forall|j: int| 0 <= j < qs.len() implies !s2.deadlines().contains_key(#[trigger] qs[j])
            && !s2.staged_responses().contains_key(qs[j]) by {
            if j < ps.len() {
                assert(qs[j] == ps[j]);
            } else {
                assert(s.discard_set(q).contains(q));
            }
        }
    }

    /// The request identifiers of `states`, in order.
    pub open spec fn deadline_ids(states: Seq<HistoricalBarDeadline>) -> Seq<u128> {
        states.map_values(|d: HistoricalBarDeadline| d.request.request_id.value)
    }

    /// Discards the source trees of `states`, one after another, and then delivers each one's
    /// failure, in order.
    fn fail_historical_bar_requests<T: HistoricalBarTimer>(
        &mut self,
        states: &Vec<HistoricalBarDeadline>,
        errors: &Vec<String>,
        now: u64,
        timer: &mut T,
        actions: &mut Vec<EngineAction>,
    )
        requires
            old(self).inv(),
            old(self).validates(),
            states@.len() == errors@.len(),
        ensures
            final(self).inv(),
            final(self).released_in_turn(old(self), Self::deadline_ids(states@)),
            exists|ids: Seq<u128>|
                #![trigger cleanup_actions(ids)]
                ids.to_set() == old(self).released_set(Self::deadline_ids(states@))
                    && (old(self).apart(Self::deadline_ids(states@)) ==> ids.no_duplicates())
                    && actions_view(final(actions)@) == actions_view(old(actions)@) + cleanup_actions(ids)
                    + old(self).failure_deliveries(Self::failed_requests(states@, errors@), now),
    {
        let ghost pre = *self;
        let ghost start = actions@;
        let ghost all = Self::deadline_ids(states@);
        let ghost mut released: Seq<u128> = Seq::empty();
        proof {
            assert(self.sources().submap_of(pre.sources()));
            assert(self.deadlines().submap_of(pre.deadlines()));
            assert(self.pipeline_requests().submap_of(pre.pipeline_requests()));
            assert(self.pipeline_components().submap_of(pre.pipeline_components()));
            assert(self.staged_responses().submap_of(pre.staged_responses()));
            assert(self.time_range_requests().submap_of(pre.time_range_requests()));
            assert(all.take(0) =~= Seq::<u128>::empty());
            assert(actions_view(actions@) =~= actions_view(start) + cleanup_actions(released));
            assert(pre.released_set(all.take(0)) =~= Set::<u128>::empty());
            assert(released.to_set() =~= Set::<u128>::empty());
        }
        for i in 0..states.len()
            invariant
                self.inv(),
                pre.validates(),
                all == Self::deadline_ids(states@),
                self.released_in_turn(&pre, all.take(i as int)),
                released.to_set() == pre.released_set(all.take(i as int)),
                pre.apart(all) ==> released.no_duplicates(),
                actions_view(actions@) == actions_view(start) + cleanup_actions(released),
        {
            let ghost s = *self;
            let ghost before = actions@;
            self.discard_historical_bar_sources(states[i].request.request_id, timer, actions);
            proof {
                let q = states@[i as int].request.request_id.value;
                assert(all.take(i as int).push(q) =~= all.take(i + 1));
                Self::lemma_release_step(&pre, &s, self, all.take(i as int), q);
                Self::lemma_released_set_step(&pre, &s, all.take(i as int), q);
                let ids = choose|ids: Seq<u128>|
                    #![trigger ids.to_set()]
                    ids.no_duplicates() && ids.to_set() == s.discard_set(q)
                        && actions_view(actions@) == actions_view(before) + cleanup_actions(ids);
                assert(cleanup_actions(released + ids) =~= cleanup_actions(released) + cleanup_actions(ids));
                Self::lemma_concat_to_set(released, ids);
                if pre.apart(all) {
                    Self::lemma_apart_prefix(&pre, all, i + 1);
                    Self::lemma_release_step_is_fresh(&pre, &s, all.take(i as int), q);
                    Self::lemma_disjoint_concat(released, ids);
                }
                released = released + ids;
                assert(actions_view(actions@) =~= actions_view(start) + cleanup_actions(released));
            }
        }
        proof {
            assert(all.take(states@.len() as int) =~= all);
        }
        let ghost discarded = actions@;
        let ghost failed = Self::failed_requests(states@, errors@);
        proof {
            assert(failed.take(0) =~= Seq::<(RequestBarsView, ClientId, Seq<char>)>::empty());
            assert(actions_view(actions@) =~= actions_view(discarded) + pre.failure_deliveries(failed.take(0), now));
        }
        for i in 0..states.len()
            invariant
                self.closed_scope_ids() == pre.closed_scope_ids(),
                states@.len() == errors@.len(),
                failed == Self::failed_requests(states@, errors@),
                actions_view(actions@) == actions_view(discarded) + pre.failure_deliveries(failed.take(i as int), now),
        {
            let ghost before = actions@;
            let request = states[i].request.clone();
            self.send_historical_bar_request_failure(request, Some(states[i].client_id), errors[i].clone(), now, actions);
            proof {
                assert(failed.take(i + 1).drop_last() =~= failed.take(i as int));
                assert(failed.take(i + 1).last() == failed[i as int]);
                assert(self.failure_delivery(failed[i as int].0, Some(failed[i as int].1), failed[i as int].2, now)
                    == pre.failure_delivery(failed[i as int].0, Some(failed[i as int].1), failed[i as int].2, now));
                assert(actions_view(actions@) =~= actions_view(discarded) + pre.failure_deliveries(failed.take(i + 1), now));
            }
        }
        proof {
            assert(failed.take(states@.len() as int) =~= failed);
            assert(actions_view(actions@) =~= actions_view(start) + cleanup_actions(released)
                + pre.failure_deliveries(failed, now));
        }
    }

    /// The pending requests of `self` that have expired at `now`.
    pub open spec fn expired_ids(&self, now: u64) -> Set<u128> {
        self.deadlines().dom().filter(|id: u128| self.is_expired(self.deadlines()[id], now))
    }

    /// The timeout failures of the pending requests `ids`, in order.
    pub open spec fn timed_out_requests(&self, ids: Seq<u128>) -> Seq<(RequestBarsView, ClientId, Seq<char>)> {
        ids.map_values(|id: u128| (
            self.deadlines()[id].request@,
            self.deadlines()[id].client_id,
            timed_out_text(self.deadlines()[id].timeout_ms),
        ))
    }

    /// The scheduling failures, with the alert's diagnostic `error`, of the pending requests
    /// `ids`, in order.
    pub open spec fn unscheduled_requests(&self, ids: Seq<u128>, error: Seq<char>) -> Seq<
        (RequestBarsView, ClientId, Seq<char>),
    > {
        ids.map_values(|id: u128| (
            self.deadlines()[id].request@,
            self.deadlines()[id].client_id,
            unscheduled_text(error),
        ))
    }

    /// `self` and `actions` are what releasing the trees of `ps`, one after another, and then
    /// delivering the failures `failed`, in order, leave of `before` and `old_actions`: first
    /// the release of the aggregators of every released request (once each when no request of
    /// `ps` lies under another), then one failure per request whose scope is open.
    pub open spec fn released_and_failed(
        &self,
        before: &Self,
        old_actions: Seq<EngineAction>,
        actions: Seq<EngineAction>,
        ps: Seq<u128>,
        failed: Seq<(RequestBarsView, ClientId, Seq<char>)>,
        now: u64,
    ) -> bool {
        &&& self.released_in_turn(before, ps)
        &&& exists|ids: Seq<u128>|
            #![trigger cleanup_actions(ids)]
            ids.to_set() == before.released_set(ps) && (before.apart(ps) ==> ids.no_duplicates())
                && actions_view(actions) == actions_view(old_actions) + cleanup_actions(ids)
                + before.failure_deliveries(failed, now)
    }

    /// `self` and `actions` are what failing every pending request of `before` leaves, when the
    /// shared alert could not be armed with the diagnostic `error`: each pending request, in
    /// some order, has its tree released and is answered with the scheduling failure.
    pub open spec fn alert_failed(
        &self,
        before: &Self,
        old_actions: Seq<EngineAction>,
        actions: Seq<EngineAction>,
        error: Seq<char>,
        now: u64,
    ) -> bool {
        &&& self.deadlines().is_empty()
        &&& exists|pending: Seq<u128>|
            #![trigger self.released_and_failed(before, old_actions, actions, pending, before.unscheduled_requests(pending, error), now)]
            {
                &&& pending.no_duplicates()
                &&& pending.to_set() == before.deadlines().dom()
                &&& self.released_and_failed(before, old_actions, actions, pending, before.unscheduled_requests(pending, error), now)
            }
    }

    /// What the result `rearmed` of keeping the shared alert leaves of `before`: nothing
    /// changes when it was kept; every pending request fails with its diagnostic otherwise.
    pub open spec fn alert_settled(
        &self,
        before: &Self,
        old_actions: Seq<EngineAction>,
        actions: Seq<EngineAction>,
        rearmed: Result<(), Seq<char>>,
        now: u64,
    ) -> bool {
        match rearmed {
            Ok(()) => *self == *before && actions == old_actions,
            Err(e) => self.alert_failed(before, old_actions, actions, e, now),
        }
    }

    /// `self` and `actions` are what an expiry pass at `now` leaves of `before` and
    /// `old_actions` when keeping the shared alert afterwards gave `rearmed`: the expired
    /// requests, in some order, have their trees released and then their timeout failures
    /// delivered; then the alert's result is settled.
    pub open spec fn expiry_pass(
        &self,
        before: &Self,
        old_actions: Seq<EngineAction>,
        actions: Seq<EngineAction>,
        now: u64,
        rearmed: Result<(), Seq<char>>,
    ) -> bool {
        exists|mid: DataEngine, mid_actions: Seq<EngineAction>, expired: Seq<u128>|
            #![trigger mid.released_and_failed(before, old_actions, mid_actions, expired, before.timed_out_requests(expired), now)]
            {
                &&& expired.no_duplicates()
                &&& expired.to_set() == before.expired_ids(now)
                &&& mid.released_and_failed(before, old_actions, mid_actions, expired, before.timed_out_requests(expired), now)
                &&& self.alert_settled(&mid, mid_actions, actions, rearmed, now)
            }
    }

    /// An expiry pass whose shared alert was kept leaves every pending request that is not
    /// under an expired one as it was.
    pub proof fn law_expiry_keeps_unrelated_requests(
        before: &Self,
        after: &Self,
        old_actions: Seq<EngineAction>,
        actions: Seq<EngineAction>,
        now: u64,
        id: u128,
    )
        requires
            after.expiry_pass(before, old_actions, actions, now, Ok(())),
            before.deadlines().contains_key(id),
            forall|p: u128| #[trigger] before.expired_ids(now).contains(p) ==> !before.reaches(id, p),
        ensures
            after.deadlines().contains_key(id),
            after.deadlines()[id] == before.deadlines()[id],
    {
        let (mid, mid_actions, expired) = choose|mid: DataEngine, mid_actions: Seq<EngineAction>, expired: Seq<u128>|
            #![trigger mid.released_and_failed(before, old_actions, mid_actions, expired, before.timed_out_requests(expired), now)]
            {
                &&& expired.no_duplicates()
                &&& expired.to_set() == before.expired_ids(now)
                &&& mid.released_and_failed(before, old_actions, mid_actions, expired, before.timed_out_requests(expired), now)
                &&& after.alert_settled(&mid, mid_actions, actions, Ok(()), now)
            };
        if before.reaches_some(id, expired) {
            let j = choose|j: int| 0 <= j < expired.len() && #[trigger] before.reaches(id, expired[j]);
            assert(expired.to_set().contains(expired[j]));
        }
    }

    /// An expiry pass releases the tree of every expired request, whatever the shared alert
    /// gave: none of them stays pending, and no captured source left reaches one.
    pub proof fn law_expiry_releases_expired_trees(
        before: &Self,
        after: &Self,
        old_actions: Seq<EngineAction>,
        actions: Seq<EngineAction>,
        now: u64,
        rearmed: Result<(), Seq<char>>,
        p: u128,
        x: u128,
    )
        requires
            after.expiry_pass(before, old_actions, actions, now, rearmed),
            before.expired_ids(now).contains(p),
        ensures
            !after.deadlines().contains_key(p),
            after.sources().contains_key(x) ==> !after.reaches(x, p),
    {
        let (mid, mid_actions, expired) = choose|mid: DataEngine, mid_actions: Seq<EngineAction>, expired: Seq<u128>|
            #![trigger mid.released_and_failed(before, old_actions, mid_actions, expired, before.timed_out_requests(expired), now)]
            {
                &&& expired.no_duplicates()
                &&& expired.to_set() == before.expired_ids(now)
                &&& mid.released_and_failed(before, old_actions, mid_actions, expired, before.timed_out_requests(expired), now)
                &&& after.alert_settled(&mid, mid_actions, actions, rearmed, now)
            };
        assert(expired.to_set().contains(p));
        let j = choose|j: int| 0 <= j < expired.len() && expired[j] == p;
        assert(!mid.deadlines().contains_key(expired[j]));
        if after.sources().contains_key(x) && after.reaches(x, p) {
            match rearmed {
                Ok(()) => {
                    assert(mid.reaches(x, expired[j]));
                },
                Err(e) => {
                    let pending = choose|pending: Seq<u128>|
                        #![trigger after.released_and_failed(&mid, mid_actions, actions, pending, mid.unscheduled_requests(pending, e), now)]
                        {
                            &&& pending.no_duplicates()
                            &&& pending.to_set() == mid.deadlines().dom()
                            &&& after.released_and_failed(&mid, mid_actions, actions, pending, mid.unscheduled_requests(pending, e), now)
                        };
                    if mid.reaches(x, p) {
                        assert(mid.reaches(x, expired[j]));
                    } else {
                        let k = choose|k: int| 0 <= k < pending.len() && #[trigger] mid.reaches(x, pending[k]);
                        assert(mid.reaches(x, pending[k]));
                    }
                },
            }
        }
    }

    /// A second expiry pass at the same time, whose shared alert is kept, sends nothing and
    /// leaves the pending requests and captured sources as the first pass left them.
    pub proof fn law_second_expiry_pass_is_quiet(
        a0: &Self,
        a1: &Self,
        a2: &Self,
        acts0: Seq<EngineAction>,
        acts1: Seq<EngineAction>,
        acts2: Seq<EngineAction>,
        now: u64,
        rearmed: Result<(), Seq<char>>,
    )
        requires
            a1.expiry_pass(a0, acts0, acts1, now, rearmed),
            a2.expiry_pass(a1, acts1, acts2, now, Ok(())),
        ensures
            a2.deadlines() == a1.deadlines(),
            a2.sources() == a1.sources(),
            actions_view(acts2) == actions_view(acts1),
    {
        let (mid, mid_actions, expired) = choose|mid: DataEngine, mid_actions: Seq<EngineAction>, expired: Seq<u128>|
            #![trigger mid.released_and_failed(a0, acts0, mid_actions, expired, a0.timed_out_requests(expired), now)]
            {
                &&& expired.no_duplicates()
                &&& expired.to_set() == a0.expired_ids(now)
                &&& mid.released_and_failed(a0, acts0, mid_actions, expired, a0.timed_out_requests(expired), now)
                &&& a1.alert_settled(&mid, mid_actions, acts1, rearmed, now)
            };
        assert forall|id: u128| !a1.expired_ids(now).contains(id) by {
            if a1.expired_ids(now).contains(id) {
                assert(rearmed is Ok);
                assert(*a1 == mid);
                assert(a0.deadlines().contains_key(id));
                assert(a0.expired_ids(now).contains(id));
                assert(expired.to_set().contains(id));
                let j = choose|j: int| 0 <= j < expired.len() && expired[j] == id;
                assert(!mid.deadlines().contains_key(expired[j]));
            }
        }
        let (mid2, mact2, exp2) = choose|mid: DataEngine, mid_actions: Seq<EngineAction>, expired: Seq<u128>|
            #![trigger mid.released_and_failed(a1, acts1, mid_actions, expired, a1.timed_out_requests(expired), now)]
            {
                &&& expired.no_duplicates()
                &&& expired.to_set() == a1.expired_ids(now)
                &&& mid.released_and_failed(a1, acts1, mid_actions, expired, a1.timed_out_requests(expired), now)
                &&& a2.alert_settled(&mid, mid_actions, acts2, Ok(()), now)
            };
        if exp2.len() > 0 {
            assert(exp2.to_set().contains(exp2[0]));
        }
        assert(exp2 =~= Seq::<u128>::empty());
        assert forall|x: u128| #[trigger] a1.deadlines().contains_key(x) implies mid2.deadlines().contains_key(x) by {
            assert(!a1.reaches_some(x, exp2));
        }
        assert forall|x: u128| #[trigger] a1.sources().contains_key(x) implies mid2.sources().contains_key(x) by {
            assert(!a1.reaches_some(x, exp2));
        }
        assert(mid2.deadlines().submap_of(a1.deadlines()));
        assert(mid2.sources().submap_of(a1.sources()));
        assert(mid2.deadlines().dom() =~= a1.deadlines().dom());
        assert forall|x: u128| #[trigger] mid2.deadlines().contains_key(x) implies mid2.deadlines()[x] == a1.deadlines()[x] by {}
        assert(mid2.deadlines() =~= a1.deadlines());
        assert(mid2.sources().dom() =~= a1.sources().dom());
        assert forall|x: u128| #[trigger] mid2.sources().contains_key(x) implies mid2.sources()[x] == a1.sources()[x] by {}
        assert(mid2.sources() =~= a1.sources());
        let ids = choose|ids: Seq<u128>|
            #![trigger cleanup_actions(ids)]
            ids.to_set() == a1.released_set(exp2) && actions_view(mact2) == actions_view(acts1)
                + cleanup_actions(ids) + a1.failure_deliveries(a1.timed_out_requests(exp2), now);
        assert forall|x: u128| !a1.released_set(exp2).contains(x) by {
            assert(!a1.reaches_some(x, exp2));
        }
        if ids.len() > 0 {
            assert(ids.to_set().contains(ids[0]));
        }
        assert(cleanup_actions(ids) =~= Seq::<EngineActionView>::empty());
        assert(a1.timed_out_requests(exp2) =~= Seq::<(RequestBarsView, ClientId, Seq<char>)>::empty());
        assert(actions_view(mact2) =~= actions_view(acts1));
    }

    /// Settles an expiry pass on the result of keeping the shared alert: nothing more happens
    /// when it was kept; otherwise no pending request could be woken in time, so each one has
    /// its tree released and is answered with the alert's diagnostic.
    pub fn settle_historical_bar_expiry<T: HistoricalBarTimer>(
        &mut self,
        rearmed: Result<(), String>,
        now: u64,
        timer: &mut T,
        actions: &mut Vec<EngineAction>,
    )
        requires
            old(self).inv(),
            old(self).validates(),
        ensures
            final(self).inv(),
            rearmed is Ok ==> *final(self) == *old(self) && final(actions)@ == old(actions)@,
            rearmed matches Err(e) ==> final(self).alert_failed(old(self), old(actions)@, final(actions)@, e@, now),
    {
        let e = match rearmed {
            Ok(()) => return,
            Err(e) => e,
        };
        let ghost pre = *self;
        let ghost start = actions@;
        let pending_ids = map_keys(&self.historical_bar_deadlines);
        let mut pending: Vec<HistoricalBarDeadline> = Vec::new();
        let mut messages: Vec<String> = Vec::new();
        for i in 0..pending_ids.len()
            invariant
                *self == pre,
                pre.inv(),
                pending_ids@.to_set() == pre.deadlines().dom(),
                pending@.len() == messages@.len(),
                pending@.len() == i,
                forall|j: int| 0 <= j < i ==> #[trigger] pending@[j].request.request_id.value == pending_ids@[j],
                forall|j: int|
                    #![trigger pending@[j]]
                    0 <= j < i ==> pending@[j].request@ == pre.deadlines()[pending_ids@[j]].request@
                        && pending@[j].client_id == pre.deadlines()[pending_ids@[j]].client_id,
                forall|j: int| 0 <= j < i ==> #[trigger] messages@[j]@ == unscheduled_text(e@),
        {
            let id = pending_ids[i];
            assert(pre.deadlines().contains_key(id)) by {
                assert(pending_ids@.to_set().contains(id));
            }
            let stored = self.historical_bar_deadlines.get(&id);
            assert(stored == Some(&pre.deadlines()[id]));
            let d = stored.unwrap().clone();
            assert(d.request@ == pre.deadlines()[id].request@);
            assert(d.client_id == pre.deadlines()[id].client_id);
            assert(d.request.request_id.value == id) by {
                assert(pre.historical_bar_deadlines@.contains_key(id));
            }
            let mut message = String::from_str("Unable to schedule historical request deadline: ");
            message.append(e.as_str());
            assert(message@ =~= unscheduled_text(e@));
            let ghost before_messages = messages@;
            messages.push(message);
            let ghost before_push = pending@;
            pending.push(d);
            assert forall|j: int| #![trigger pending@[j]] 0 <= j < i + 1 implies pending@[j].request@
                == pre.deadlines()[pending_ids@[j]].request@ && pending@[j].client_id
                == pre.deadlines()[pending_ids@[j]].client_id by {
                if j < i {
                    assert(pending@[j] == before_push[j]);
                }
            }
            assert forall|j: int| 0 <= j < i + 1 implies #[trigger] messages@[j]@ == unscheduled_text(e@) by {
                if j < i {
                    assert(messages@[j] == before_messages[j]);
                }
            }
            assert forall|j: int| 0 <= j < i + 1 implies #[trigger] pending@[j].request.request_id.value
                == pending_ids@[j] by {
                if j < i {
                    assert(pending@[j] == before_push[j]);
                    assert(before_push[j].request.request_id.value == pending_ids@[j]);
                }
            }
        }
        proof {
            assert(Self::deadline_ids(pending@) =~= pending_ids@);
            assert(Self::failed_requests(pending@, messages@) =~= pre.unscheduled_requests(pending_ids@, e@));
        }
        proof {
            assert(Self::deadline_ids(pending@) =~= pending_ids@);
            assert(Self::failed_requests(pending@, messages@) =~= pre.unscheduled_requests(pending_ids@, e@));
        }
        self.fail_historical_bar_requests(&pending, &messages, now, timer, actions);
        proof {
            assert forall|id: u128| !self.deadlines().contains_key(id) by {
                if self.deadlines().contains_key(id) {
                    assert(pre.deadlines().contains_key(id));
                    assert(pending_ids@.to_set().contains(id));
                    let j = choose|j: int| 0 <= j < pending_ids@.len() && pending_ids@[j] == id;
                }
            }
            assert(self.deadlines().dom() =~= Set::<u128>::empty());
            assert(self.released_and_failed(&pre, start, actions@, pending_ids@,
                pre.unscheduled_requests(pending_ids@, e@), now));
        }
    }

    /// Retires expired and inactive original requests before their metadata callbacks, without
    /// bar effects: each one's source tree is released and its requester receives a timeout
    /// failure. The shared alert is then kept; when that fails, every pending request fails.
    pub fn expire_historical_bar_requests<T: HistoricalBarTimer>(
        &mut self,
        now: u64,
        timer: &mut T,
        actions: &mut Vec<EngineAction>,
    )
        requires
            old(self).inv(),
        ensures
            final(self).inv(),
            !old(self).validates() ==> *final(self) == *old(self) && final(actions)@ == old(actions)@
                && *final(timer) == *old(timer),
            old(self).validates() ==> exists|rearmed: Result<(), Seq<char>>|
                #![trigger final(self).expiry_pass(old(self), old(actions)@, final(actions)@, now, rearmed)]
                final(self).expiry_pass(old(self), old(actions)@, final(actions)@, now, rearmed),
    {
        if !self.validate_historical_bars {
            return;
        }
        let ghost pre = *self;
        let ghost start = actions@;
        let ids = map_keys(&self.historical_bar_deadlines);
        let mut expired: Vec<HistoricalBarDeadline> = Vec::new();
        let mut errors: Vec<String> = Vec::new();
        let ghost mut picked: Seq<u128> = Seq::empty();
        for i in 0..ids.len()
            invariant
                *self == pre,
                pre.inv(),
                ids@.to_set() == pre.deadlines().dom(),
                ids@.no_duplicates(),
                expired@.len() == errors@.len(),
                picked.len() == expired@.len(),
                picked.no_duplicates(),
                forall|j: int| 0 <= j < picked.len() ==> ids@.take(i as int).contains(#[trigger] picked[j]),
                forall|j: int| 0 <= j < expired@.len() ==> {
                    &&& pre.deadlines().contains_key(#[trigger] picked[j])
                    &&& pre.is_expired(pre.deadlines()[picked[j]], now)
                    &&& expired@[j].request@ == pre.deadlines()[picked[j]].request@
                    &&& expired@[j].client_id == pre.deadlines()[picked[j]].client_id
                    &&& expired@[j].timeout_ms == pre.deadlines()[picked[j]].timeout_ms
                    &&& expired@[j].request.request_id.value == picked[j]
                    &&& errors@[j]@ == timed_out_text(expired@[j].timeout_ms)
                },
                forall|k: int| 0 <= k < i && pre.is_expired(pre.deadlines()[#[trigger] ids@[k]], now)
                    ==> picked.contains(ids@[k]),
        {
            let id = ids[i];
            assert(pre.deadlines().contains_key(id)) by {
                assert(ids@.to_set().contains(id));
            }
            let ghost old_picked = picked;
            let ghost old_expired = expired@;
            let ghost old_errors = errors@;
            assert(ids@.take(i + 1) =~= ids@.take(i as int).push(id));
            match self.historical_bar_deadlines.get(&id) {
                Some(d) => {
                    if d.expires_at <= now || self.scope_is_inactive(&d.request.scope) {
                        let copy = d.clone();
                        errors.push(timed_out_message(copy.timeout_ms));
                        expired.push(copy);
                        proof {
                            assert(!old_picked.contains(id)) by {
                                if old_picked.contains(id) {
                                    let j = choose|j: int| 0 <= j < old_picked.len() && old_picked[j] == id;
                                    assert(ids@.take(i as int).contains(old_picked[j]));
                                    let k = choose|k: int| 0 <= k < i && ids@.take(i as int)[k] == id;
                                    assert(ids@[k] == ids@[i as int]);
                                }
                            }
                            picked = picked.push(id);
                            assert forall|j: int| 0 <= j < expired@.len() implies {
                                &&& pre.deadlines().contains_key(#[trigger] picked[j])
                                &&& pre.is_expired(pre.deadlines()[picked[j]], now)
                                &&& expired@[j].request@ == pre.deadlines()[picked[j]].request@
                                &&& expired@[j].client_id == pre.deadlines()[picked[j]].client_id
                                &&& expired@[j].timeout_ms == pre.deadlines()[picked[j]].timeout_ms
                                &&& expired@[j].request.request_id.value == picked[j]
                                &&& errors@[j]@ == timed_out_text(expired@[j].timeout_ms)
                            } by {
                                if j < old_picked.len() {
                                    assert(picked[j] == old_picked[j]);
                                    assert(expired@[j] == old_expired[j]);
                                    assert(errors@[j] == old_errors[j]);
                                }
                            }
                        }
                    }
                },
                None => {},
            }
            proof {
                assert forall|j: int| 0 <= j < picked.len() implies ids@.take(i + 1).contains(#[trigger] picked[j]) by {
                    if j < old_picked.len() {
                        assert(picked[j] == old_picked[j]);
                        assert(ids@.take(i as int).contains(old_picked[j]));
                        let k = choose|k: int| 0 <= k < i && ids@.take(i as int)[k] == old_picked[j];
                        assert(ids@.take(i + 1)[k] == old_picked[j]);
                    } else {
                        assert(ids@.take(i + 1)[i as int] == id);
                    }
                }
                assert forall|k: int| 0 <= k < i + 1 && pre.is_expired(pre.deadlines()[#[trigger] ids@[k]], now)
                    implies picked.contains(ids@[k]) by {
                    if k == i {
                        assert(picked[picked.len() - 1] == ids@[k]);
                    } else {
                        let j = choose|j: int| 0 <= j < old_picked.len() && old_picked[j] == ids@[k];
                        assert(picked[j] == old_picked[j]);
                    }
                }
            }
        }
        proof {
            assert(Self::deadline_ids(expired@) =~= picked);
            assert(Self::failed_requests(expired@, errors@) =~= pre.timed_out_requests(picked));
            assert forall|id: u128| #[trigger] picked.to_set().contains(id) <==> pre.expired_ids(now).contains(id) by {
                if pre.expired_ids(now).contains(id) {
                    assert(ids@.to_set().contains(id));
                    let k = choose|k: int| 0 <= k < ids@.len() && ids@[k] == id;
                    assert(pre.is_expired(pre.deadlines()[ids@[k]], now));
                }
                if picked.to_set().contains(id) {
                    let j = choose|j: int| 0 <= j < picked.len() && picked[j] == id;
                    assert(pre.deadlines().contains_key(picked[j]));
                }
            }
            assert(picked.to_set() =~= pre.expired_ids(now));
        }
        self.fail_historical_bar_requests(&expired, &errors, now, timer, actions);
        let ghost after_expired = actions@;
        let ghost mid = *self;
        proof {
            assert(mid.released_and_failed(&pre, start, after_expired, picked, pre.timed_out_requests(picked), now));
        }
        let rearmed = self.maintain_historical_bar_timeout(now, timer);
        let ghost rearmed_view: Result<(), Seq<char>> = match &rearmed {
            Ok(()) => Ok(()),
            Err(e) => Err(e@),
        };
        self.settle_historical_bar_expiry(rearmed, now, timer, actions);
        proof {
            assert(self.alert_settled(&mid, after_expired, actions@, rearmed_view, now));
            assert(self.expiry_pass(&pre, start, actions@, now, rearmed_view));
        }
    }

    /// The outcome of checking a response against its captured source: a bars page is checked
    /// as complete for an original source and as a partial leg for a pipeline child.
    pub open spec fn source_check(source: HistoricalBarSource, response: DataResponseView) -> Result<(), SourceError> {
        match response {
            DataResponseView::Bars(b) => source.validation(b, source.parent_request_id is None),
            _ => Err(SourceError::WrongVariant),
        }
    }

    /// A response whose source passed: it carries the original coverage and parameters and no
    /// client-echoed outcome; its bars are untouched.
    pub open spec fn admitted_response(before: DataResponseView, after: DataResponseView, source: HistoricalBarSource) -> bool {
        match (before, after) {
            (DataResponseView::Bars(b), DataResponseView::Bars(a)) => {
                &&& a == (BarsResponseView {
                    start: Some(source.start_ns),
                    end: Some(source.end_ns),
                    params: params_view(source.params),
                    historical_outcome: None,
                    ..b
                })
            },
            _ => after == before,
        }
    }

    /// Applies the opt-in source guard before response trimming, cache updates or aggregation.
    ///
    /// Gives whether the response may proceed. Engine-authored failures cannot be supplied by
    /// clients; responses of captured sources are checked against the original intent; an
    /// invalid source is rejected and its whole tree released.
    pub fn validate_historical_bar_response<T: HistoricalBarTimer>(
        &mut self,
        response: &mut DataResponse,
        now: u64,
        timer: &mut T,
        actions: &mut Vec<EngineAction>,
    ) -> (r: bool)
        requires
            old(self).inv(),
        ensures
            final(self).inv(),
            old(response)@ is BarsRequestFailed ==> !r && *final(self) == *old(self) && final(response)@ == old(response)@
                && final(actions)@ == old(actions)@,
            !(old(response)@ is BarsRequestFailed) && !old(self).validates() ==> {
                &&& r
                &&& *final(self) == *old(self)
                &&& final(actions)@ == old(actions)@
                &&& match old(response)@ {
                    DataResponseView::Bars(b) => final(response)@ == DataResponseView::Bars(BarsResponseView { historical_outcome: None, ..b }),
                    _ => final(response)@ == old(response)@,
                }
            },
            !(old(response)@ is BarsRequestFailed) && old(self).validates() ==> {
                let id = old(response)@.correlation_id().value;
                if !old(self).sources().contains_key(id) {
                    &&& r == !(old(response)@ is Bars)
                    &&& *final(self) == *old(self)
                    &&& final(response)@ == old(response)@
                    &&& final(actions)@ == old(actions)@
                } else {
                    let source = old(self).sources()[id];
                    if old(self).scope_inactive(source.scope) {
                        &&& !r
                        &&& final(response)@ == old(response)@
                        &&& final(self).discarded_from(old(self), old(self).discard_set(old(self).source_root(id)->0))
                        &&& exists|ids: Seq<u128>|
                            #![trigger ids.to_set()]
                            ids.no_duplicates() && ids.to_set() == old(self).discard_set(old(self).source_root(id)->0)
                                && actions_view(final(actions)@) == actions_view(old(actions)@) + cleanup_actions(ids)
                    } else if old(self).deadline_elapsed(id, now) {
                        &&& !r
                        &&& final(response)@ == old(response)@
                        &&& exists|rearmed: Result<(), Seq<char>>|
                            #![trigger final(self).expiry_pass(old(self), old(actions)@, final(actions)@, now, rearmed)]
                            final(self).expiry_pass(old(self), old(actions)@, final(actions)@, now, rearmed)
                    } else {
                        match Self::source_check(source, old(response)@) {
                            Ok(()) => {
                                &&& r
                                &&& *final(self) == *old(self)
                                &&& final(actions)@ == old(actions)@
                                &&& Self::admitted_response(old(response)@, final(response)@, source)
                            },
                            Err(e) => {
                                let root = old(self).sources()[old(self).source_root(id)->0];
                                &&& !r
                                &&& final(response)@ == old(response)@
                                &&& final(self).discarded_from(old(self), old(self).discard_set(old(self).source_root(id)->0))
                                &&& exists|ids: Seq<u128>|
                                    #![trigger ids.to_set()]
                                    ids.no_duplicates() && ids.to_set() == old(self).discard_set(old(self).source_root(id)->0)
                                        && actions_view(final(actions)@) == actions_view(old(actions)@) + cleanup_actions(ids)
                                        + (if old(self).scope_inactive(root.scope) {
                                        Seq::<EngineActionView>::empty()
                                    } else {
                                        seq![EngineActionView::SendResponse {
                                            request_id: root.request_id,
                                            response: rejection_response(root, e.text(), now),
                                        }]
                                    })
                            },
                        }
                    }
                }
            },
    {
        if let DataResponse::BarsRequestFailed(_) = response {
            return false;
        }
        if !self.validate_historical_bars {
            if let DataResponse::Bars(bars) = response {
                bars.historical_outcome = None;
            }
            return true;
        }
        let request_id = response.correlation_id();
        let source = match self.historical_bar_sources.get(&request_id.value) {
            Some(s) => s,
            None => {
                return match response {
                    DataResponse::Bars(_) => false,
                    _ => true,
                };
            },
        };
        proof {
            self.lemma_source_root(request_id.value, self.depth_of(request_id.value));
        }
        if self.scope_is_inactive(&source.scope) {
            let original_id = match self.original_historical_bar_source(request_id) {
                Some(original) => Some(original.request_id),
                None => None,
            };
            if let Some(original_id) = original_id {
                self.discard_historical_bar_sources(original_id, timer, actions);
            }
            return false;
        }
        if self.historical_bar_deadline_has_elapsed(request_id, now) {
            self.expire_historical_bar_requests(now, timer, actions);
            return false;
        }
        let validation = match response {
            DataResponse::Bars(bars) => source.validate(bars, source.parent_request_id.is_none()),
            _ => Err(SourceError::WrongVariant),
        };
        match validation {
            Err(e) => {
                let message = e.message();
                self.reject_historical_bar_source(request_id, message.as_str(), now, timer, actions);
                false
            },
            Ok(()) => {
                let start_ns = source.start_ns;
                let end_ns = source.end_ns;
                let params = crate::messages::clone_params(&source.params);
                if let DataResponse::Bars(bars) = response {
                    bars.start = Some(start_ns);
                    bars.end = Some(end_ns);
                    bars.params = params;
                    bars.historical_outcome = None;
                }
                true
            },
        }
    }

    /// The records already staged for a pipeline parent, when they can be counted.
    pub open spec fn received_count(&self, parent: u128) -> Option<int> {
        if self.staged_responses().contains_key(parent) && staged_total(self.staged_responses()[parent]@) <= usize::MAX {
            Some(staged_total(self.staged_responses()[parent]@))
        } else {
            None
        }
    }

    /// Whether one more pipeline response fits the original coverage of its captured parent;
    /// when it does not, the parent source is rejected.
    pub fn historical_bar_pipeline_has_capacity<T: HistoricalBarTimer>(
        &mut self,
        parent_id: UUID4,
        response: &DataResponse,
        now: u64,
        timer: &mut T,
        actions: &mut Vec<EngineAction>,
    ) -> (r: bool)
        requires
            old(self).inv(),
        ensures
            final(self).inv(),
            !old(self).sources().contains_key(parent_id.value) ==> r && *final(self) == *old(self) && final(actions)@ == old(actions)@,
            old(self).sources().contains_key(parent_id.value) ==> {
                let expected = old(self).sources()[parent_id.value].expected_count;
                let fits = match old(self).received_count(parent_id.value) {
                    Some(received) => (match response@.record_count() {
                        Some(c) => c as int,
                        None => 0,
                    }) <= (if received >= expected { 0 } else { expected - received }),
                    None => false,
                };
                &&& r == fits
                &&& fits ==> *final(self) == *old(self) && final(actions)@ == old(actions)@
                &&& !fits ==> final(self).rejected_from(old(self), old(actions)@, final(actions)@, parent_id.value, pipeline_excess_text(), now)
            },
    {
        let expected_count = match self.historical_bar_sources.get(&parent_id.value) {
            Some(source) => source.expected_count,
            None => return true,
        };
        let received: Option<usize> = match self.request_pipeline_responses.get(&parent_id.value) {
            Some(responses) => {
                let mut count: Option<usize> = Some(0);
                for i in 0..responses.len()
                    invariant
                        match count {
                            Some(c) => c == staged_total(responses@.take(i as int)),
                            None => staged_total(responses@.take(i as int)) > usize::MAX,
                        },
                {
                    proof {
                        assert(responses@.take(i + 1).drop_last() =~= responses@.take(i as int));
                        lemma_staged_total_grows(responses@.take(i as int), responses@.take(i + 1));
                    }
                    count = match count {
                        Some(c) => c.checked_add(match responses[i].record_count() {
                            Some(n) => n,
                            None => 0,
                        }),
                        None => None,
                    };
                }
                assert(responses@.take(responses@.len() as int) =~= responses@);
                count
            },
            None => None,
        };
        let incoming = match response.record_count() {
            Some(n) => n,
            None => 0,
        };
        let fits = match received {
            Some(received) => incoming <= expected_count.saturating_sub(received),
            None => false,
        };
        if !fits {
            let message = String::from_str("Historical pipeline exceeds original coverage");
            self.reject_historical_bar_source(parent_id, message.as_str(), now, timer, actions);
            return false;
        }
        true
    }

    /// The union of a pipeline's legs, as the engine checks it against the parent source.
    pub open spec fn pipeline_union(source: HistoricalBarSource, bars: Seq<crate::model::Bar>, now: u64) -> BarsResponseView {
        BarsResponseView {
            correlation_id: source.request_id,
            client_id: source.client_id,
            bar_type: source.bar_type,
            data: bars,
            ts_init: now,
            start: Some(source.start_ns),
            end: Some(source.end_ns),
            params: params_view(source.params),
            historical_outcome: None,
        }
    }

    /// Checks the undeduplicated union of a pipeline's legs, in event-time order, against the
    /// parent source before rebuilding could hide repeats; a refused union rejects the parent.
    pub fn validate_historical_bar_pipeline_legs<T: HistoricalBarTimer>(
        &mut self,
        parent_id: UUID4,
        legs: &[DataResponse],
        now: u64,
        timer: &mut T,
        actions: &mut Vec<EngineAction>,
    ) -> (r: bool)
        requires
            old(self).inv(),
        ensures
            final(self).inv(),
            !old(self).sources().contains_key(parent_id.value) ==> r && *final(self) == *old(self) && final(actions)@ == old(actions)@,
            old(self).sources().contains_key(parent_id.value) ==> {
                let source = old(self).sources()[parent_id.value];
                let views = legs@.map_values(|l: DataResponse| l@);
                match legs_refusal(views, source.expected_count, views.len()) {
                    Some(e) => !r && final(self).rejected_from(old(self), old(actions)@, final(actions)@, parent_id.value, e, now),
                    None => exists|sorted: Seq<crate::model::Bar>| #[trigger] sorted_by_event(sorted)
                        && sorted.to_multiset() == leg_bars(views, views.len()).to_multiset()
                        && match source.validation(Self::pipeline_union(source, sorted, now), source.parent_request_id is None) {
                        Ok(()) => r && *final(self) == *old(self) && final(actions)@ == old(actions)@,
                        Err(e) => !r && final(self).rejected_from(old(self), old(actions)@, final(actions)@, parent_id.value, e.text(), now),
                    },
                }
            },
    {
        let source = match self.historical_bar_sources.get(&parent_id.value) {
            Some(s) => s,
            None => return true,
        };
        let ghost views = legs@.map_values(|l: DataResponse| l@);
        let ghost pre = *self;
        let ghost start = actions@;
        let mut bars: Vec<crate::model::Bar> = Vec::new();
        for i in 0..legs.len()
            invariant
                *self == pre,
                pre == *old(self),
                start == old(actions)@,
                pre.inv(),
                actions@ == start,
                pre.sources().contains_key(parent_id.value),
                *source == pre.sources()[parent_id.value],
                views == legs@.map_values(|l: DataResponse| l@),
                legs_refusal(views, source.expected_count, i as nat) is None,
                bars@ == leg_bars(views, i as nat),
                bars@.len() <= source.expected_count,
        {
            let response = match &legs[i] {
                DataResponse::Bars(b) => b,
                _ => {
                    proof {
                        lemma_legs_refusal_stable(views, source.expected_count, (i + 1) as nat, views.len());
                    }
                    let message = String::from_str("Historical pipeline has wrong source variant");
                    self.reject_historical_bar_source(parent_id, message.as_str(), now, timer, actions);
                    return false;
                },
            };
            if response.data.len() > source.expected_count.saturating_sub(bars.len()) {
                proof {
                    lemma_legs_refusal_stable(views, source.expected_count, (i + 1) as nat, views.len());
                }
                let message = String::from_str("Historical pipeline exceeds original coverage");
                self.reject_historical_bar_source(parent_id, message.as_str(), now, timer, actions);
                return false;
            }
            let ghost before = bars@;
            for j in 0..response.data.len()
                invariant
                    bars@ == before + response.data@.take(j as int),
            {
                bars.push(response.data[j]);
                assert(bars@ =~= before + response.data@.take(j + 1));
            }
            assert(response.data@.take(response.data@.len() as int) =~= response.data@);
        }
        assert(views.len() == legs@.len());
        let sorted = sort_bars_by_event(bars);
        let union = BarsResponse::new(
            parent_id,
            source.client_id,
            source.bar_type,
            sorted,
            Some(source.start_ns),
            Some(source.end_ns),
            now,
            crate::messages::clone_params(&source.params),
        );
        proof {
            assert(union@ == Self::pipeline_union(*source, union.data@, now));
        }
        match source.validate(&union, source.parent_request_id.is_none()) {
            Ok(()) => true,
            Err(e) => {
                let message = e.message();
                self.reject_historical_bar_source(parent_id, message.as_str(), now, timer, actions);
                false
            },
        }
    }

    /// Whether freezing an aggregation plan for a source of `source` type succeeds, or why not.
    pub open spec fn freeze_result(aggregation: Option<RequestBarAggregation>, source: BarType) -> Result<(), AdmissionError> {
        match aggregation {
            None => Ok(()),
            Some(state) => match plan_check(state.bar_types@, source, state.bar_types@.len()) {
                Err(e) => Err(e),
                Ok(()) => if plan_standards(state.bar_types@).no_duplicates() {
                    Ok(())
                } else {
                    Err(AdmissionError::Source(SourceError::DuplicateTargets))
                },
            },
        }
    }

    /// Freezes the original target plan of a captured source without starting aggregators,
    /// and gives it fresh, empty output for each standard target.
    pub fn freeze_historical_bar_aggregation(
        &mut self,
        request_id: UUID4,
        aggregation: Option<RequestBarAggregation>,
    ) -> (r: Result<(), AdmissionError>)
        requires
            old(self).inv(),
        ensures
            final(self).inv(),
            !old(self).sources().contains_key(request_id.value) ==> r == Err::<(), AdmissionError>(AdmissionError::NoOriginalSource)
                && *final(self) == *old(self),
            old(self).sources().contains_key(request_id.value) ==> {
                let before = old(self).sources()[request_id.value];
                let after = final(self).sources()[request_id.value];
                &&& r == Self::freeze_result(aggregation, before.bar_type)
                &&& final(self).sources().dom() == old(self).sources().dom()
                &&& forall|k: u128| k != request_id.value && #[trigger] old(self).sources().contains_key(k)
                    ==> final(self).sources()[k] == old(self).sources()[k]
                &&& after == (HistoricalBarSource { aggregation: aggregation, outputs: after.outputs, ..before })
                &&& r is Ok ==> {
                    &&& after.outputs@.batches == match aggregation {
                        Some(state) => plan_standards(state.bar_types@).map_values(|t: BarType| (t, Seq::<crate::model::Bar>::empty())),
                        None => Seq::empty(),
                    }
                    &&& after.outputs@.max_per_target == before.output_limit
                    &&& after.outputs@.error is None
                    &&& !after.outputs@.closed
                }
                &&& r is Err ==> after.outputs == before.outputs
                &&& final(self).deadlines() == old(self).deadlines()
                &&& final(self).pipeline_parents() == old(self).pipeline_parents()
                &&& final(self).time_range_parents() == old(self).time_range_parents()
                &&& final(self).closed_scope_ids() == old(self).closed_scope_ids()
                &&& final(self).validates() == old(self).validates()
            },
    {
        if !self.historical_bar_sources.contains_key(&request_id.value) {
            return Err(AdmissionError::NoOriginalSource);
        }
        let mut source = match self.historical_bar_sources.remove(&request_id.value) {
            Some(s) => s,
            None => return Err(AdmissionError::NoOriginalSource),
        };
        source.aggregation = aggregation;
        let checked = match &source.aggregation {
            Some(state) => check_plan(&state.bar_types, source.bar_type),
            None => Ok(()),
        };
        if let Err(e) = checked {
            self.historical_bar_sources.insert(request_id.value, source);
            assert(self.sources() =~= old(self).sources().insert(request_id.value, self.sources()[request_id.value]));
            return Err(e);
        }
        let outputs = match HistoricalBarOutputs::new(source.aggregation.as_ref(), source.output_limit) {
            Ok(o) => o,
            Err(e) => {
                self.historical_bar_sources.insert(request_id.value, source);
                return Err(AdmissionError::Source(e));
            },
        };
        source.outputs = outputs;
        self.historical_bar_sources.insert(request_id.value, source);
        Ok(())
    }

    /// Starts completing a validated bars response before any raw or target cache effect: an
    /// expired request is retired and refused; a response without a captured source is refused.
    pub fn complete_historical_bar_response<T: HistoricalBarTimer>(
        &mut self,
        response: &DataResponse,
        now: u64,
        timer: &mut T,
        actions: &mut Vec<EngineAction>,
    ) -> (step: CompletionStep)
        requires
            old(self).inv(),
        ensures
            final(self).inv(),
            !old(self).validates() || !(response@ is Bars) ==> step == CompletionStep::Finished(true)
                && *final(self) == *old(self) && final(actions)@ == old(actions)@,
            old(self).validates() && response@ is Bars ==> {
                let id = response@.correlation_id().value;
                if old(self).deadline_elapsed(id, now) {
                    step == CompletionStep::Finished(false) && exists|rearmed: Result<(), Seq<char>>|
                        #![trigger final(self).expiry_pass(old(self), old(actions)@, final(actions)@, now, rearmed)]
                        final(self).expiry_pass(old(self), old(actions)@, final(actions)@, now, rearmed)
                } else if !old(self).sources().contains_key(id) {
                    step == CompletionStep::Finished(false) && *final(self) == *old(self) && final(actions)@ == old(actions)@
                } else {
                    &&& step == (CompletionStep::Aggregate {
                        request_id: response@.correlation_id(),
                        has_plan: old(self).sources()[id].aggregation is Some,
                    })
                    &&& *final(self) == *old(self)
                    &&& final(actions)@ == old(actions)@
                }
            },
    {
        if !self.validate_historical_bars {
            return CompletionStep::Finished(true);
        }
        if let DataResponse::Bars(_) = response {
        } else {
            return CompletionStep::Finished(true);
        }
        let request_id = response.correlation_id();
        if self.historical_bar_deadline_has_elapsed(request_id, now) {
            self.expire_historical_bar_requests(now, timer, actions);
            return CompletionStep::Finished(false);
        }
        match self.historical_bar_sources.get(&request_id.value) {
            Some(source) => CompletionStep::Aggregate { request_id, has_plan: source.aggregation.is_some() },
            None => CompletionStep::Finished(false),
        }
    }

    /// Settles the preparation of a response's request-local aggregators: on success the
    /// response goes on to aggregation; a refused preparation rejects its source tree with the
    /// preparation's diagnostic.
    pub fn settle_historical_bar_aggregation<T: HistoricalBarTimer>(
        &mut self,
        request_id: UUID4,
        prepared: Result<(), String>,
        now: u64,
        timer: &mut T,
        actions: &mut Vec<EngineAction>,
    ) -> (r: bool)
        requires
            old(self).inv(),
        ensures
            final(self).inv(),
            prepared is Ok ==> r && *final(self) == *old(self) && final(actions)@ == old(actions)@,
            prepared matches Err(e) ==> !r && final(self).rejected_from(
                old(self),
                old(actions)@,
                final(actions)@,
                request_id.value,
                e@,
                now,
            ),
    {
        match prepared {
            Ok(()) => true,
            Err(e) => {
                self.reject_historical_bar_source(request_id, e.as_str(), now, timer, actions);
                false
            },
        }
    }

    /// Records one actual aggregator emission for the captured source of `request_id`.
    pub fn record_historical_bar_output(&mut self, request_id: UUID4, bar: crate::model::Bar) -> (kept: bool)
        requires
            old(self).inv(),
        ensures
            final(self).inv(),
            !old(self).sources().contains_key(request_id.value) ==> !kept && *final(self) == *old(self),
            old(self).sources().contains_key(request_id.value) ==> {
                let before = old(self).sources()[request_id.value];
                let after = final(self).sources()[request_id.value];
                &&& (after.outputs@, kept) == crate::outputs::record_step(before.outputs@, bar)
                &&& after == (HistoricalBarSource { outputs: after.outputs, ..before })
                &&& final(self).sources().dom() == old(self).sources().dom()
                &&& forall|k: u128| k != request_id.value && #[trigger] old(self).sources().contains_key(k)
                    ==> final(self).sources()[k] == old(self).sources()[k]
                &&& final(self).deadlines() == old(self).deadlines()
                &&& final(self).validates() == old(self).validates()
                &&& final(self).closed_scope_ids() == old(self).closed_scope_ids()
            },
    {
        if !self.historical_bar_sources.contains_key(&request_id.value) {
            return false;
        }
        let mut source = match self.historical_bar_sources.remove(&request_id.value) {
            Some(s) => s,
            None => return false,
        };
        let kept = source.outputs.record(bar);
        self.historical_bar_sources.insert(request_id.value, source);
        kept
    }

    /// Closes the request-local output of a source after its aggregation ran, and attaches it
    /// to the response as a validated outcome; a recording error rejects the source instead.
    pub fn finish_historical_bar_response<T: HistoricalBarTimer>(
        &mut self,
        response: &mut DataResponse,
        now: u64,
        timer: &mut T,
        actions: &mut Vec<EngineAction>,
    ) -> (r: bool)
        requires
            old(self).inv(),
        ensures
            final(self).inv(),
            !old(self).sources().contains_key(old(response)@.correlation_id().value) ==> !r && *final(self) == *old(self)
                && final(response)@ == old(response)@ && final(actions)@ == old(actions)@,
            old(self).sources().contains_key(old(response)@.correlation_id().value) ==> {
                let id = old(response)@.correlation_id().value;
                let outputs = old(self).sources()[id].outputs@;
                match outputs.error {
                    Some(e) => {
                        &&& !r
                        &&& final(response)@ == old(response)@
                        &&& final(self).rejected_from(old(self), old(actions)@, final(actions)@, id, e, now)
                    },
                    None => {
                        &&& r
                        &&& outputs.wf()
                        &&& outputs.max_per_target == old(self).sources()[id].output_limit
                        &&& final(actions)@ == old(actions)@
                        &&& final(self).outputs_replaced(old(self), id)
                        &&& final(self).sources()[id].outputs@.closed
                        &&& final(self).sources()[id].outputs@.batches == Seq::<(BarType, Seq<crate::model::Bar>)>::empty()
                        &&& match old(response)@ {
                            DataResponseView::Bars(b) => final(response)@ == DataResponseView::Bars(BarsResponseView {
                                historical_outcome: Some(HistoricalBarsOutcomeView::Validated { aggregates: outputs.batches }),
                                ..b
                            }),
                            _ => final(response)@ == old(response)@,
                        }
                    },
                }
            },
    {
        let ghost pre = *self;
        let request_id = response.correlation_id();
        if !self.historical_bar_sources.contains_key(&request_id.value) {
            return false;
        }
        let mut source = match self.historical_bar_sources.remove(&request_id.value) {
            Some(s) => s,
            None => return false,
        };
        let ghost taken = source;
        let finished = source.outputs.finish();
        proof {
            assert(taken == pre.sources()[request_id.value]);
            assert(source == (HistoricalBarSource { outputs: source.outputs, ..taken }));
        }
        self.historical_bar_sources.insert(request_id.value, source);
        proof {
            assert(self.sources() =~= pre.sources().insert(request_id.value, source));
        }
        match finished {
            Err(e) => {
                let ghost mid = *self;
                let ghost acts = *actions;
                proof {
                    assert(mid.outputs_replaced(&pre, request_id.value));
                }
                self.reject_historical_bar_source(request_id, e.as_str(), now, timer, actions);
                proof {
                    self.lemma_rejected_before_outputs_replaced(&mid, &pre, request_id.value, acts@, actions@, e@, now);
                }
                false
            },
            Ok(aggregates) => {
                if let DataResponse::Bars(bars) = response {
                    bars.historical_outcome = Some(HistoricalBarsOutcome::Validated { aggregates });
                }
                true
            },
        }
    }

    /// The request's ancestry ends at its `n`-th ancestor.
    pub open spec fn ends_at(&self, id: u128, n: nat) -> bool {
        self.ancestor(id, n) is Some && self.ancestor(id, n + 1) is None
    }

    /// The last ancestor of a request, or none when its ancestry is cyclic.
    pub open spec fn chain_end(&self, id: u128) -> Option<u128> {
        if exists|n: nat| #[trigger] self.ends_at(id, n) {
            self.ancestor(id, choose|n: nat| #[trigger] self.ends_at(id, n))
        } else {
            None
        }
    }

    /// `self` and `actions` are what releasing the source tree of `parent` and then delivering
    /// `delivery` leaves of `before` and `old_actions`.
    pub open spec fn discarded_then(
        &self,
        before: &Self,
        old_actions: Seq<EngineAction>,
        actions: Seq<EngineAction>,
        parent: u128,
        delivery: Seq<EngineActionView>,
    ) -> bool {
        &&& self.discarded_from(before, before.discard_set(parent))
        &&& exists|ids: Seq<u128>|
            #![trigger ids.to_set()]
            ids.no_duplicates() && ids.to_set() == before.discard_set(parent)
                && actions_view(actions) == actions_view(old_actions) + cleanup_actions(ids) + delivery
    }

    proof fn lemma_ends_unique(&self, id: u128, n: nat, m: nat)
        requires
            self.ends_at(id, n),
            self.ends_at(id, m),
        ensures
            n == m,
    {
        if n < m {
            self.lemma_chain_ended(id, n + 1, m);
        } else if m < n {
            self.lemma_chain_ended(id, m + 1, n);
        }
    }

    pub open spec fn cyclic_text() -> Seq<char> {
        "; historical pipeline ancestry is cyclic"@
    }

    pub open spec fn missing_intent_text() -> Seq<char> {
        "; original historical pipeline intent missing"@
    }

    /// Completes an admission error of a request whose source was never captured, preserving
    /// the original intent: a pipeline child fails its captured or frozen original parent, a
    /// cyclic or unknown ancestry fails only the submitted request, and a closed requester scope
    /// suppresses delivery.
    pub fn reject_unadmitted_historical_bar_request<T: HistoricalBarTimer>(
        &mut self,
        request: &RequestCommand,
        client_id: Option<ClientId>,
        error: &str,
        now: u64,
        timer: &mut T,
        actions: &mut Vec<EngineAction>,
    )
        requires
            old(self).inv(),
        ensures
            final(self).inv(),
            !(request is Bars) ==> *final(self) == *old(self) && final(actions)@ == old(actions)@,
            request is Bars ==> {
                let submitted = request->Bars_0;
                let id = submitted.request_id.value;
                match old(self).chain_end(id) {
                    None => final(self).discarded_then(old(self), old(actions)@, final(actions)@, id,
                        old(self).failure_delivery(submitted@, client_id, error@ + Self::cyclic_text(), now)),
                    Some(root) => if root == id {
                        &&& *final(self) == *old(self)
                        &&& actions_view(final(actions)@) == actions_view(old(actions)@)
                            + old(self).failure_delivery(submitted@, client_id, error@, now)
                    } else if old(self).source_root(root) is Some {
                        final(self).rejected_from(old(self), old(actions)@, final(actions)@, root, error@, now)
                    } else if old(self).pipeline_requests().contains_key(root) && old(self).pipeline_requests()[root] is Bars {
                        final(self).discarded_then(old(self), old(actions)@, final(actions)@, root,
                            old(self).failure_delivery(old(self).pipeline_requests()[root]->Bars_0@, None, error@, now))
                    } else {
                        final(self).discarded_then(old(self), old(actions)@, final(actions)@, id,
                            old(self).failure_delivery(submitted@, client_id, error@ + Self::missing_intent_text(), now))
                    },
                }
            },
    {
        let submitted = match request {
            RequestCommand::Bars(r) => r,
            RequestCommand::Other { .. } => return,
        };
        let ghost start = submitted.request_id.value;
        let ghost keys = self.linked_ids();
        let ghost pre = *self;
        let mut original_id = submitted.request_id;
        let mut visited = id_set_new();
        let mut diagnostic = String::from_str(error);
        let mut cyclic = false;
        let ghost mut path: Seq<u128> = Seq::empty();
        loop
            invariant_except_break
                *self == pre,
                actions@ == old(actions)@,
                pre == *old(self),
                pre.inv(),
                start == submitted.request_id.value,
                keys == self.linked_ids(),
                keys.finite(),
                path.no_duplicates(),
                id_set_contents(visited) == path.to_set(),
                forall|t: nat| t < path.len() ==> self.ancestor(start, t) == Some(#[trigger] path[t as int]),
                self.ancestor(start, path.len()) == Some(original_id.value),
                path.to_set().subset_of(keys),
                path.len() <= keys.len(),
                !cyclic,
                diagnostic@ == error@,
            ensures
                pre == *old(self),
                pre.inv(),
                self.inv(),
                start == submitted.request_id.value,
                !cyclic ==> {
                    &&& *self == pre
                    &&& actions@ == old(actions)@
                    &&& diagnostic@ == error@
                    &&& pre.chain_end(start) == Some(original_id.value)
                },
                cyclic ==> {
                    &&& original_id == submitted.request_id
                    &&& pre.chain_end(start) is None
                    &&& diagnostic@ == error@ + Self::cyclic_text()
                    &&& self.discarded_then(&pre, old(actions)@, actions@, start, Seq::empty())
                },
            decreases keys.len() - path.len(),
        {
            let parent = match self.historical_bar_parent_id(original_id) {
                Some(p) => p,
                None => {
                    proof {
                        let n = path.len();
                        assert(self.ancestor(start, n + 1) == match self.ancestor(start, n) {
                            Some(x) => self.parent_link(x),
                            None => None,
                        });
                        assert(self.ends_at(start, n));
                        self.lemma_ends_unique(start, n, choose|m: nat| #[trigger] self.ends_at(start, m));
                    }
                    break;
                },
            };
            if !id_set_insert(&mut visited, original_id.value) {
                proof {
                    let j = choose|j: int| 0 <= j < path.len() && path[j] == original_id.value;
                    assert(self.ancestor(start, j as nat) == Some(original_id.value));
                    assert forall|m: nat| !#[trigger] self.ends_at(start, m) by {
                        self.lemma_cycle_closes(start, j as nat, path.len(), m + 1);
                        let t = choose|t: nat| t < path.len() && self.ancestor(start, m + 1) == #[trigger] self.ancestor(start, t);
                        assert(self.ancestor(start, t) == Some(path[t as int]));
                    }
                }
                diagnostic.append("; historical pipeline ancestry is cyclic");
                cyclic = true;
                original_id = submitted.request_id;
                self.discard_historical_bar_sources(original_id, timer, actions);
                proof {
                    let ids = choose|ids: Seq<u128>| #![trigger ids.to_set()] ids.no_duplicates() && ids.to_set() == pre.discard_set(start)
                        && actions_view(actions@) == actions_view(old(actions)@) + cleanup_actions(ids);
                    assert(actions_view(actions@) =~= actions_view(old(actions)@) + cleanup_actions(ids) + Seq::<EngineActionView>::empty());
                }
                break;
            }
            proof {
                let n = path.len();
                assert(self.ancestor(start, n + 1) == match self.ancestor(start, n) {
                    Some(x) => self.parent_link(x),
                    None => None,
                });
                assert(keys.contains(original_id.value));
                path.lemma_push_to_set_commute(original_id.value);
                path = path.push(original_id.value);
                path.unique_seq_to_set();
                vstd::set_lib::lemma_len_subset(path.to_set(), keys);
            }
            original_id = parent;
        }
        let ghost mid_actions = actions@;
        let ghost mid = *self;
        let (failed_request, failed_client) = if original_id == submitted.request_id {
            (submitted.clone(), client_id)
        } else {
            proof {
                pre.lemma_source_root(original_id.value, pre.depth_of(original_id.value));
            }
            if self.original_historical_bar_source(original_id).is_some() {
                self.reject_historical_bar_source(original_id, error, now, timer, actions);
                return;
            }
            let parent_request = match self.request_pipeline_parent_request.get(&original_id.value) {
                Some(RequestCommand::Bars(parent)) => Some(parent.clone()),
                _ => None,
            };
            match parent_request {
                Some(parent) => {
                    self.discard_historical_bar_sources(original_id, timer, actions);
                    (parent, None)
                },
                None => {
                    diagnostic.append("; original historical pipeline intent missing");
                    self.discard_historical_bar_sources(submitted.request_id, timer, actions);
                    (submitted.clone(), client_id)
                },
            }
        };
        let ghost before_send = actions@;
        self.send_historical_bar_request_failure(failed_request, failed_client, diagnostic, now, actions);
        proof {
            if cyclic || original_id != submitted.request_id {
                let p = if cyclic || pre.pipeline_requests().contains_key(original_id.value) && pre.pipeline_requests()[original_id.value] is Bars {
                    original_id.value
                } else {
                    start
                };
                let ids = choose|ids: Seq<u128>| #![trigger ids.to_set()] ids.no_duplicates() && ids.to_set() == pre.discard_set(p)
                    && actions_view(before_send) == actions_view(old(actions)@) + cleanup_actions(ids) + Seq::<EngineActionView>::empty();
                assert(actions_view(actions@) =~= actions_view(old(actions)@) + cleanup_actions(ids)
                    + self.failure_delivery(failed_request@, failed_client, diagnostic@, now));
            }
        }
    }

    /// Roots of the sources that survive a release are the roots they had.
    proof fn lemma_source_root_kept(before: &Self, after: &Self, ids: Set<u128>, c: u128)
        requires
            before.inv(),
            after.inv(),
            after.sources() == before.sources().remove_keys(ids),
            after.depths() == before.depths(),
            after.sources().contains_key(c),
        ensures
            after.source_root(c) == before.source_root(c),
        decreases after.depth_of(c),
    {
        before.lemma_source_root(c, before.depth_of(c));
        after.lemma_source_root(c, after.depth_of(c));
        if let Some(p) = after.sources()[c].parent_request_id {
            Self::lemma_source_root_kept(before, after, ids, p.value);
            before.lemma_source_root(p.value, (before.depth_of(c) - 1) as nat);
            after.lemma_source_root(p.value, (after.depth_of(c) - 1) as nat);
        }
    }

    /// Following `a` links and then `b` more is following `a + b` links.
    proof fn lemma_ancestor_compose(&self, x: u128, a: nat, y: u128, b: nat)
        requires
            self.ancestor(x, a) == Some(y),
        ensures
            self.ancestor(x, a + b) == self.ancestor(y, b),
        decreases b,
    {
        if b > 0 {
            self.lemma_ancestor_compose(x, a, y, (b - 1) as nat);
            assert(self.ancestor(x, a + b) == match self.ancestor(x, (a + b - 1) as nat) {
                Some(z) => self.parent_link(z),
                None => None,
            });
        }
    }

    /// After releasing the tree of `parent`, a parent link left was there before, unless the
    /// request already reached `parent` before.
    proof fn lemma_released_links(before: &Self, after: &Self, parent: u128, x: u128)
        requires
            after.discarded_from(before, before.discard_set(parent)),
            after.parent_link(x) is Some,
        ensures
            before.parent_link(x) == after.parent_link(x) || before.reaches(x, parent),
    {
        let ids = before.discard_set(parent);
        if before.sources().contains_key(x) && !after.sources().contains_key(x) {
            assert(ids.contains(x));
        }
        if !before.sources().contains_key(x) || before.sources()[x].parent_request_id is None {
            if before.pipeline_parents().contains_key(x) && !after.pipeline_parents().contains_key(x) {
                let z = before.pipeline_parents()[x].value;
                if ids.contains(x) {
                    assert(!after.time_range_parents().contains_key(x));
                } else {
                    assert(ids.contains(z));
                    before.lemma_discard_set_reaches(parent, z);
                    let k = choose|k: nat| #[trigger] before.ancestor(z, k) == Some(parent);
                    assert(before.ancestor(x, 0) == Some(x));
                    assert(before.ancestor(x, 1) == Some(z));
                    before.lemma_ancestor_compose(x, 1, z, k);
                    assert(before.ancestor(x, 1 + k) == Some(parent));
                }
            }
        }
    }

    /// After releasing the tree of `parent`, an ancestor left was an ancestor before, unless the
    /// request already reached `parent` before.
    proof fn lemma_released_ancestry(before: &Self, after: &Self, parent: u128, x: u128, k: nat)
        requires
            after.discarded_from(before, before.discard_set(parent)),
            after.ancestor(x, k) is Some,
        ensures
            before.ancestor(x, k) == after.ancestor(x, k) || before.reaches(x, parent),
        decreases k,
    {
        if k > 0 {
            let j = (k - 1) as nat;
            Self::lemma_released_ancestry(before, after, parent, x, j);
            if !before.reaches(x, parent) {
                let y = after.ancestor(x, j)->0;
                Self::lemma_released_links(before, after, parent, y);
                if before.reaches(y, parent) {
                    let t = choose|t: nat| #[trigger] before.ancestor(y, t) == Some(parent);
                    before.lemma_ancestor_compose(x, j, y, t);
                    assert(before.ancestor(x, j + t) == Some(parent));
                }
            }
        }
    }

    /// Releasing the source tree of `parent` leaves no captured source, and with validation on
    /// no frozen pipeline intent and no deadline, whose ancestry reaches `parent`.
    pub proof fn law_release_leaves_nothing_under_parent(before: &Self, after: &Self, parent: u128)
        requires
            after.discarded_from(before, before.discard_set(parent)),
        ensures
            forall|c: u128| #[trigger] after.sources().contains_key(c) ==> !after.reaches(c, parent),
            after.validates() ==> {
                &&& forall|c: u128| #[trigger] after.pipeline_requests().contains_key(c) ==> !after.reaches(c, parent)
                &&& forall|c: u128| #[trigger] after.time_range_requests().contains_key(c) ==> !after.reaches(c, parent)
                &&& !after.deadlines().contains_key(parent)
            },
    {
        assert forall|c: u128| after.reaches(c, parent) implies before.reaches(c, parent) by {
            let k = choose|k: nat| #[trigger] after.ancestor(c, k) == Some(parent);
            Self::lemma_released_ancestry(before, after, parent, c, k);
        }
    }

    /// The original requests: captured sources without a parent, and pending deadlines.
    pub open spec fn original_ids(&self) -> Set<u128> {
        self.sources().dom().filter(|k: u128| self.sources()[k].parent_request_id is None) + self.deadlines().dom()
    }

    /// Every captured source's root, and, with validation on, every deadline, is still to come
    /// in `order` from position `i`.
    pub open spec fn roots_pending(&self, order: Seq<u128>, i: int) -> bool {
        &&& forall|c: u128| #[trigger] self.sources().contains_key(c) ==> self.source_root(c) is Some
            && order.subrange(i, order.len() as int).contains(self.source_root(c)->0)
        &&& self.validates() ==> forall|d: u128| #[trigger] self.deadlines().contains_key(d)
            ==> order.subrange(i, order.len() as int).contains(d)
    }

    proof fn lemma_roots_pending_step(before: &Self, after: &Self, order: Seq<u128>, i: int)
        requires
            before.inv(),
            after.inv(),
            0 <= i < order.len(),
            order.no_duplicates(),
            before.roots_pending(order, i),
            after.discarded_from(before, before.discard_set(order[i])),
        ensures
            after.roots_pending(order, i + 1),
    {
        let parent = order[i];
        let rest = order.subrange(i, order.len() as int);
        let next = order.subrange(i + 1, order.len() as int);
        assert forall|c: u128| #[trigger] after.sources().contains_key(c) implies after.source_root(c) is Some
            && next.contains(after.source_root(c)->0) by {
            Self::lemma_source_root_kept(before, after, before.discard_set(parent), c);
            after.lemma_source_root(c, after.depth_of(c));
            before.lemma_source_root(c, before.depth_of(c));
            let r = before.source_root(c)->0;
            if r == parent {
                assert(before.discard_set(parent).contains(c));
            }
            let k = choose|k: int| 0 <= k < rest.len() && rest[k] == r;
            assert(k != 0);
            assert(next[k - 1] == r);
        }
        if after.validates() {
            assert forall|d: u128| #[trigger] after.deadlines().contains_key(d) implies next.contains(d) by {
                assert(before.deadlines().contains_key(d));
                assert(d != parent);
                let k = choose|k: int| 0 <= k < rest.len() && rest[k] == d;
                assert(k != 0);
                assert(next[k - 1] == d);
            }
        }
    }

    /// Releases every pending historical request: each original source tree and each original
    /// deadline.
    pub fn discard_all_historical_bar_sources<T: HistoricalBarTimer>(
        &mut self,
        timer: &mut T,
        actions: &mut Vec<EngineAction>,
    )
        requires
            old(self).inv(),
        ensures
            final(self).inv(),
            final(self).sources().is_empty(),
            old(self).validates() ==> final(self).deadlines().is_empty(),
            final(self).validates() == old(self).validates(),
            final(self).closed_scope_ids() == old(self).closed_scope_ids(),
            !old(self).validates() ==> exists|ids: Seq<u128>|
                #![trigger cleanup_actions(ids)]
                ids.no_duplicates() && ids.to_set() == old(self).sources().dom()
                    && actions_view(final(actions)@) == actions_view(old(actions)@) + cleanup_actions(ids),
            old(self).validates() ==> exists|order: Seq<u128>, ids: Seq<u128>|
                #![trigger final(self).released_in_turn(old(self), order), cleanup_actions(ids)]
                {
                    &&& order.to_set() == old(self).original_ids()
                    &&& final(self).released_in_turn(old(self), order)
                    &&& ids.to_set() == old(self).released_set(order)
                    &&& old(self).apart(order) ==> ids.no_duplicates()
                    &&& actions_view(final(actions)@) == actions_view(old(actions)@) + cleanup_actions(ids)
                },
    {
        let ghost pre = *self;
        let ghost start = actions@;
        let mut parents = id_set_new();
        let source_ids = map_keys(&self.historical_bar_sources);
        for i in 0..source_ids.len()
            invariant
                *self == pre,
                pre.inv(),
                source_ids@.to_set() == pre.sources().dom(),
                forall|j: int| 0 <= j < i && pre.sources()[#[trigger] source_ids@[j]].parent_request_id is None
                    ==> id_set_contents(parents).contains(source_ids@[j]),
                id_set_contents(parents) == source_ids@.take(i as int).to_set().filter(
                    |k: u128| pre.sources()[k].parent_request_id is None,
                ),
        {
            let id = source_ids[i];
            let is_root = match self.historical_bar_sources.get(&id) {
                Some(source) => source.parent_request_id.is_none(),
                None => false,
            };
            assert(pre.sources().contains_key(id)) by {
                assert(source_ids@.to_set().contains(id));
            }
            if is_root {
                id_set_insert(&mut parents, id);
            }
            proof {
                assert(source_ids@.take(i + 1) =~= source_ids@.take(i as int).push(id));
                source_ids@.take(i as int).lemma_push_to_set_commute(id);
                assert(id_set_contents(parents) =~= source_ids@.take(i + 1).to_set().filter(
                    |k: u128| pre.sources()[k].parent_request_id is None,
                ));
            }
        }
        proof {
            assert(source_ids@.take(source_ids@.len() as int) =~= source_ids@);
        }
        let deadline_ids = map_keys(&self.historical_bar_deadlines);
        let ghost roots = id_set_contents(parents);
        for i in 0..deadline_ids.len()
            invariant
                *self == pre,
                deadline_ids@.to_set() == pre.deadlines().dom(),
                roots.subset_of(id_set_contents(parents)),
                forall|j: int| 0 <= j < i ==> id_set_contents(parents).contains(#[trigger] deadline_ids@[j]),
                id_set_contents(parents) == roots + deadline_ids@.take(i as int).to_set(),
        {
            id_set_insert(&mut parents, deadline_ids[i]);
            proof {
                assert(deadline_ids@.take(i + 1) =~= deadline_ids@.take(i as int).push(deadline_ids@[i as int]));
                deadline_ids@.take(i as int).lemma_push_to_set_commute(deadline_ids@[i as int]);
                assert(id_set_contents(parents) =~= roots + deadline_ids@.take(i + 1).to_set());
            }
        }
        proof {
            assert(deadline_ids@.take(deadline_ids@.len() as int) =~= deadline_ids@);
            assert(roots =~= pre.sources().dom().filter(|k: u128| pre.sources()[k].parent_request_id is None));
            assert(id_set_contents(parents) =~= pre.original_ids());
        }
        proof {
            assert forall|c: u128| #[trigger] pre.sources().contains_key(c) implies id_set_contents(parents).contains(
                pre.source_root(c)->0,
            ) by {
                pre.lemma_source_root(c, pre.depth_of(c));
                let r = pre.source_root(c)->0;
                assert(source_ids@.to_set().contains(r));
                let j = choose|j: int| 0 <= j < source_ids@.len() && source_ids@[j] == r;
            }
            assert forall|d: u128| #[trigger] pre.deadlines().contains_key(d) implies id_set_contents(parents).contains(d) by {
                assert(deadline_ids@.to_set().contains(d));
                let j = choose|j: int| 0 <= j < deadline_ids@.len() && deadline_ids@[j] == d;
            }
        }
        let order = crate::idset::id_set_into_vec(parents);
        proof {
            assert(order@.subrange(0, order@.len() as int) =~= order@);
            assert forall|c: u128| #[trigger] pre.sources().contains_key(c) implies pre.source_root(c) is Some
                && order@.contains(pre.source_root(c)->0) by {
                pre.lemma_source_root(c, pre.depth_of(c));
                assert(order@.to_set().contains(pre.source_root(c)->0));
            }
            assert forall|d: u128| #[trigger] pre.deadlines().contains_key(d) implies order@.contains(d) by {
                assert(order@.to_set().contains(d));
            }
        }
        let ghost mut released: Seq<u128> = Seq::empty();
        proof {
            assert(actions_view(actions@) =~= actions_view(start) + cleanup_actions(released));
            assert(self.sources().submap_of(pre.sources()));
            assert(self.deadlines().submap_of(pre.deadlines()));
            assert(self.pipeline_requests().submap_of(pre.pipeline_requests()));
            assert(self.pipeline_components().submap_of(pre.pipeline_components()));
            assert(self.staged_responses().submap_of(pre.staged_responses()));
            assert(self.time_range_requests().submap_of(pre.time_range_requests()));
            assert(order@.take(0) =~= Seq::<u128>::empty());
            assert(pre.released_set(order@.take(0)) =~= Set::<u128>::empty());
            assert(released.to_set() =~= Set::<u128>::empty());
            assert(pre.sources().dom().difference(self.sources().dom()) =~= Set::<u128>::empty());
        }
        for i in 0..order.len()
            invariant
                self.inv(),
                self.validates() == pre.validates(),
                self.closed_scope_ids() == pre.closed_scope_ids(),
                order@.no_duplicates(),
                Self::roots_pending(self, order@, i as int),
                actions_view(actions@) == actions_view(start) + cleanup_actions(released),
                pre.validates() ==> self.released_in_turn(&pre, order@.take(i as int)),
                pre.validates() ==> released.to_set() == pre.released_set(order@.take(i as int)),
                pre.validates() && pre.apart(order@) ==> released.no_duplicates(),
                !pre.validates() ==> self.sources().submap_of(pre.sources()),
                !pre.validates() ==> released.no_duplicates(),
                !pre.validates() ==> released.to_set() == pre.sources().dom().difference(self.sources().dom()),
        {
            let parent = UUID4 { value: order[i] };
            let ghost before = *self;
            let ghost before_actions = actions@;
            self.discard_historical_bar_sources(parent, timer, actions);
            proof {
                Self::lemma_roots_pending_step(&before, self, order@, i as int);
                let ids = choose|ids: Seq<u128>|
                    #![trigger ids.to_set()]
                    ids.no_duplicates() && ids.to_set() == before.discard_set(parent.value)
                        && actions_view(actions@) == actions_view(before_actions) + cleanup_actions(ids);
                let q = parent.value;
                let all = order@;
                if pre.validates() {
                    assert(all.take(i as int).push(q) =~= all.take(i + 1));
                    Self::lemma_release_step(&pre, &before, self, all.take(i as int), q);
                    Self::lemma_released_set_step(&pre, &before, all.take(i as int), q);
                    if pre.apart(all) {
                        Self::lemma_apart_prefix(&pre, all, i + 1);
                        Self::lemma_release_step_is_fresh(&pre, &before, all.take(i as int), q);
                        Self::lemma_disjoint_concat(released, ids);
                    }
                } else {
                    Self::lemma_disjoint_concat(released, ids);
                    assert(self.sources().dom() =~= before.sources().dom().difference(ids.to_set()));
                    assert(pre.sources().dom().difference(self.sources().dom()) =~= released.to_set() + ids.to_set());
                }
                assert(cleanup_actions(released + ids) =~= cleanup_actions(released) + cleanup_actions(ids));
                Self::lemma_concat_to_set(released, ids);
                released = released + ids;
                assert(actions_view(actions@) =~= actions_view(start) + cleanup_actions(released));
            }
        }
        proof {
            assert(order@.take(order@.len() as int) =~= order@);
        }
        proof {
            assert forall|c: u128| !self.sources().contains_key(c) by {
                if self.sources().contains_key(c) {
                    assert(order@.subrange(order@.len() as int, order@.len() as int).len() == 0);
                }
            }
            assert(self.sources().dom() =~= Set::empty());
            if !pre.validates() {
                assert(pre.sources().dom().difference(self.sources().dom()) =~= pre.sources().dom());
            }
            if pre.validates() {
                assert forall|d: u128| !self.deadlines().contains_key(d) by {
                    if self.deadlines().contains_key(d) {
                        assert(order@.subrange(order@.len() as int, order@.len() as int).len() == 0);
                    }
                }
                assert(self.deadlines().dom() =~= Set::empty());
            }
        }
    }
}

/// Once a leg is refused, the first refusal stays the same.
proof fn lemma_legs_refusal_stable(legs: Seq<DataResponseView>, expected: usize, n: nat, m: nat)
    requires
        n <= m,
        legs_refusal(legs, expected, n) is Some,
    ensures
        legs_refusal(legs, expected, m) == legs_refusal(legs, expected, n),
    decreases m - n,
{
    if n < m {
        lemma_legs_refusal_stable(legs, expected, n, (m - 1) as nat);
    }

}

/// Counting one more staged response never lowers the total.
proof fn lemma_staged_total_grows(shorter: Seq<DataResponse>, longer: Seq<DataResponse>)
    requires
        longer.len() == shorter.len() + 1,
        longer.drop_last() == shorter,
    ensures
        staged_total(longer) >= staged_total(shorter),
{
}

} // verus!
