//! Request intent and its parameters, as the historical validation reads them.

use vstd::prelude::*;

use crate::model::{BarType, ClientId, UUID4};

verus! {

/// A JSON parameter value, as far as the request logic distinguishes it.
///
/// `Other` holds the JSON text of any value that is not one of the listed forms
/// (fractions, arrays and objects).
#[derive(Debug)]
pub enum ParamValue {
    Null,
    Bool(bool),
    Unsigned(u64),
    Negative(i64),
    Text(String),
    Other(String),
}

/// The mathematical value of a [`ParamValue`].
pub enum ParamValueView {
    Null,
    Bool(bool),
    Unsigned(u64),
    Negative(i64),
    Text(Seq<char>),
    Other(Seq<char>),
}

impl View for ParamValue {
    type V = ParamValueView;

    open spec fn view(&self) -> ParamValueView {
        match self {
            ParamValue::Null => ParamValueView::Null,
            ParamValue::Bool(b) => ParamValueView::Bool(*b),
            ParamValue::Unsigned(u) => ParamValueView::Unsigned(*u),
            ParamValue::Negative(n) => ParamValueView::Negative(*n),
            ParamValue::Text(s) => ParamValueView::Text(s@),
            ParamValue::Other(s) => ParamValueView::Other(s@),
        }
    }
}

impl Clone for ParamValue {
    fn clone(&self) -> (r: Self)
        ensures
            r@ == self@,
    {
        match self {
            ParamValue::Null => ParamValue::Null,
            ParamValue::Bool(b) => ParamValue::Bool(*b),
            ParamValue::Unsigned(u) => ParamValue::Unsigned(*u),
            ParamValue::Negative(n) => ParamValue::Negative(*n),
            ParamValue::Text(s) => ParamValue::Text(s.clone()),
            ParamValue::Other(s) => ParamValue::Other(s.clone()),
        }
    }
}

impl ParamValue {
    /// The value as an unsigned integer, when it is one.
    pub fn as_u64(&self) -> (r: Option<u64>)
        ensures
            r == (match self@ {
                ParamValueView::Unsigned(u) => Some(u),
                _ => None,
            }),
    {
        match self {
            ParamValue::Unsigned(u) => Some(*u),
            _ => None,
        }
    }
}

/// One named parameter.
#[derive(Debug)]
pub struct ParamEntry {
    pub key: String,
    pub value: ParamValue,
}

impl View for ParamEntry {
    type V = (Seq<char>, ParamValueView);

    open spec fn view(&self) -> (Seq<char>, ParamValueView) {
        (self.key@, self.value@)
    }
}

impl Clone for ParamEntry {
    fn clone(&self) -> (r: Self)
        ensures
            r@ == self@,
    {
        ParamEntry { key: self.key.clone(), value: self.value.clone() }
    }
}

/// Request parameters: named values in insertion order.
#[derive(Debug)]
pub struct Params {
    pub entries: Vec<ParamEntry>,
}

/// The value stored under `key`: that of its first entry.
pub open spec fn param_lookup(entries: Seq<(Seq<char>, ParamValueView)>, key: Seq<char>) -> Option<
    ParamValueView,
>
    decreases entries.len(),
{
    if entries.len() == 0 {
        None
    } else if entries[0].0 == key {
        Some(entries[0].1)
    } else {
        param_lookup(entries.drop_first(), key)
    }
}

/// The index of the first entry under `key`, or the length when there is none.
pub open spec fn param_position(entries: Seq<(Seq<char>, ParamValueView)>, key: Seq<char>) -> int
    decreases entries.len(),
{
    if entries.len() == 0 {
        0
    } else if entries[0].0 == key {
        0
    } else {
        1 + param_position(entries.drop_first(), key)
    }
}

/// Inserting keeps the position of an existing key and replaces its value, or appends.
pub open spec fn param_insert(
    entries: Seq<(Seq<char>, ParamValueView)>,
    key: Seq<char>,
    value: ParamValueView,
) -> Seq<(Seq<char>, ParamValueView)> {
    let i = param_position(entries, key);
    if i < entries.len() {
        entries.update(i, (key, value))
    } else {
        entries.push((key, value))
    }
}

proof fn lemma_param_position(entries: Seq<(Seq<char>, ParamValueView)>, key: Seq<char>)
    ensures
        0 <= param_position(entries, key) <= entries.len(),
        param_position(entries, key) < entries.len() ==> entries[param_position(entries, key)].0
            == key && param_lookup(entries, key) == Some(
            entries[param_position(entries, key)].1,
        ),
        param_position(entries, key) == entries.len() ==> param_lookup(entries, key) is None,
        forall|j: int| 0 <= j < param_position(entries, key) ==> entries[j].0 != key,
    decreases entries.len(),
{
    if entries.len() > 0 && entries[0].0 != key {
        lemma_param_position(entries.drop_first(), key);
        assert forall|j: int| 0 <= j < param_position(entries, key) implies entries[j].0 != key by {
            if j > 0 {
                assert(entries[j] == entries.drop_first()[j - 1]);
            }
        }
    }
}

impl View for Params {
    type V = Seq<(Seq<char>, ParamValueView)>;

    open spec fn view(&self) -> Seq<(Seq<char>, ParamValueView)> {
        self.entries@.map_values(|e: ParamEntry| e@)
    }
}

impl Clone for Params {
    fn clone(&self) -> (r: Self)
        ensures
            r@ == self@,
    {
        let mut entries: Vec<ParamEntry> = Vec::new();
        for i in 0..self.entries.len()
            invariant
                entries@.len() == i,
                forall|j: int| 0 <= j < i ==> #[trigger] entries@[j]@ == self.entries@[j]@,
        {
            entries.push(self.entries[i].clone());
        }
        let r = Params { entries };
        assert(r@ =~= self@);
        r
    }
}

impl Params {
    /// Creates empty parameters.
    pub fn new() -> (r: Self)
        ensures
            r@ == Seq::<(Seq<char>, ParamValueView)>::empty(),
    {
        let r = Params { entries: Vec::new() };
        assert(r@ =~= Seq::<(Seq<char>, ParamValueView)>::empty());
        r
    }

    fn position(&self, key: &String) -> (i: usize)
        ensures
            i == param_position(self@, key@),
    {
        proof {
            lemma_param_position(self@, key@);
        }
        let mut i: usize = 0;
        while i < self.entries.len()
            invariant
                i <= self.entries@.len(),
                i <= param_position(self@, key@),
                forall|j: int| 0 <= j < param_position(self@, key@) ==> self@[j].0 != key@,
                0 <= param_position(self@, key@) <= self@.len(),
                param_position(self@, key@) < self@.len() ==> self@[param_position(self@, key@)].0
                    == key@,
            decreases self.entries.len() - i,
        {
            if self.entries[i].key == *key {
                assert(self@[i as int].0 == key@);
                return i;
            }
            assert(self@[i as int].0 != key@);
            i = i + 1;
        }
        i
    }

    /// The value stored under `key`.
    pub fn get(&self, key: &str) -> (r: Option<&ParamValue>)
        ensures
            r matches Some(v) ==> param_lookup(self@, key@) == Some(v@),
            r is None ==> param_lookup(self@, key@) is None,
    {
        proof {
            lemma_param_position(self@, key@);
        }
        let key = String::from_str(key);
        let i = self.position(&key);
        if i < self.entries.len() {
            Some(&self.entries[i].value)
        } else {
            None
        }
    }

    /// Stores `value` under `key`, keeping the position of an existing entry.
    pub fn insert(&mut self, key: String, value: ParamValue)
        ensures
            final(self)@ == param_insert(old(self)@, key@, value@),
    {
        proof {
            lemma_param_position(self@, key@);
        }
        let i = self.position(&key);
        if i < self.entries.len() {
            let ghost before = self.entries@;
            self.entries.set(i, ParamEntry { key, value });
            assert(self@ =~= param_insert(old(self)@, key@, value@));
        } else {
            self.entries.push(ParamEntry { key, value });
            assert(self@ =~= param_insert(old(self)@, key@, value@));
        }
    }
}

/// A process-local requester scope; the engine tracks which scopes have been closed.
#[derive(Clone, Copy, Debug, PartialEq, Eq, Structural)]
pub struct RequestScope {
    pub id: u64,
}

/// The original intent of a historical bars request.
///
/// `start` and `end` are signed UTC nanoseconds, so a pre-epoch bound is kept as requested.
/// `aggregation_plan` holds the targets of the aggregation plan carried in `params`, when that
/// plan parses.
#[derive(Debug)]
pub struct RequestBars {
    pub bar_type: BarType,
    pub start: Option<i128>,
    pub end: Option<i128>,
    pub limit: Option<usize>,
    pub client_id: Option<ClientId>,
    pub request_id: UUID4,
    pub ts_init: u64,
    pub params: Option<Params>,
    pub scope: Option<RequestScope>,
    pub aggregation_plan: Option<Vec<BarType>>,
}

/// The mathematical value of a [`RequestBars`].
pub struct RequestBarsView {
    pub bar_type: BarType,
    pub start: Option<i128>,
    pub end: Option<i128>,
    pub limit: Option<usize>,
    pub client_id: Option<ClientId>,
    pub request_id: UUID4,
    pub ts_init: u64,
    pub params: Option<Seq<(Seq<char>, ParamValueView)>>,
    pub scope: Option<RequestScope>,
    pub aggregation_plan: Option<Seq<BarType>>,
}

pub open spec fn params_view(p: Option<Params>) -> Option<Seq<(Seq<char>, ParamValueView)>> {
    match p {
        Some(p) => Some(p@),
        None => None,
    }
}

pub open spec fn bar_types_view(p: Option<Vec<BarType>>) -> Option<Seq<BarType>> {
    match p {
        Some(v) => Some(v@),
        None => None,
    }
}

pub fn clone_params(p: &Option<Params>) -> (r: Option<Params>)
    ensures
        params_view(r) == params_view(*p),
{
    match p {
        Some(p) => Some(p.clone()),
        None => None,
    }
}

pub fn clone_bar_types(v: &Vec<BarType>) -> (r: Vec<BarType>)
    ensures
        r@ == v@,
{
    let mut r: Vec<BarType> = Vec::new();
    for i in 0..v.len()
        invariant
            r@ == v@.subrange(0, i as int),
    {
        r.push(v[i]);
        assert(r@ =~= v@.subrange(0, i + 1));
    }
    assert(v@.subrange(0, v@.len() as int) =~= v@);
    r
}

impl View for RequestBars {
    type V = RequestBarsView;

    open spec fn view(&self) -> RequestBarsView {
        RequestBarsView {
            bar_type: self.bar_type,
            start: self.start,
            end: self.end,
            limit: self.limit,
            client_id: self.client_id,
            request_id: self.request_id,
            ts_init: self.ts_init,
            params: params_view(self.params),
            scope: self.scope,
            aggregation_plan: bar_types_view(self.aggregation_plan),
        }
    }
}

impl Clone for RequestBars {
    fn clone(&self) -> (r: Self)
        ensures
            r@ == self@,
    {
        RequestBars {
            bar_type: self.bar_type,
            start: self.start,
            end: self.end,
            limit: self.limit,
            client_id: self.client_id,
            request_id: self.request_id,
            ts_init: self.ts_init,
            params: clone_params(&self.params),
            scope: self.scope,
            aggregation_plan: match &self.aggregation_plan {
                Some(v) => Some(clone_bar_types(v)),
                None => None,
            },
        }
    }
}

/// A request command, as far as the historical validation distinguishes it.
#[derive(Debug)]
pub enum RequestCommand {
    Bars(RequestBars),
    Other { request_id: UUID4 },
}

/// A frozen request-local aggregation plan: the targets to build from the source.
#[derive(Debug)]
pub struct RequestBarAggregation {
    pub bar_types: Vec<BarType>,
    pub skip_first_non_full_bar: bool,
}

} // verus!
