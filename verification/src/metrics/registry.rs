//! A registry of named metrics: each name is registered at most once, and
//! only a registered name can be unregistered. The metric objects
//! themselves (counters, gauges and summaries) are carried as the type
//! parameters `C`, `G` and `S`.

use vstd::prelude::*;

use crate::metrics::error::{MetricError, MetricErrorData, RegisterError, UnregisterError};
use crate::metrics::metadata::Metadata;
use crate::metrics::value::MetricValue;
use crate::metrics::MetricType;
use crate::text::str_eq;

verus! {

/// A registered metric: a counter, a gauge or a summary.
pub enum Metric<C, G, S> {
    Counter(C),
    Gauge(G),
    Summary(S),
}

impl<C, G, S> Metric<C, G, S> {
    /// The kind of the metric.
    pub open spec fn spec_ty(&self) -> MetricType {
        match self {
            Metric::Counter(_) => MetricType::Counter,
            Metric::Gauge(_) => MetricType::Gauge,
            Metric::Summary(_) => MetricType::Summary,
        }
    }

    /// The kind of the metric.
    pub fn ty(&self) -> (r: MetricType)
        ensures
            r == self.spec_ty(),
    {
        match self {
            Metric::Counter(_) => MetricType::Counter,
            Metric::Gauge(_) => MetricType::Gauge,
            Metric::Summary(_) => MetricType::Summary,
        }
    }
}

/// A registered metric with its metadata.
pub struct MetricInstance<C, G, S> {
    metric: Metric<C, G, S>,
    metadata: Metadata,
}

impl<C, G, S> MetricInstance<C, G, S> {
    /// The metric.
    pub closed spec fn spec_metric(&self) -> Metric<C, G, S> {
        self.metric
    }

    /// The metadata.
    pub closed spec fn spec_metadata(&self) -> Metadata {
        self.metadata
    }

    /// The instance holding `metric` and `metadata`.
    pub closed spec fn spec_new(metric: Metric<C, G, S>, metadata: Metadata) -> Self {
        MetricInstance { metric, metadata }
    }

    /// The instance built from a metric and metadata holds them.
    pub proof fn lemma_spec_new(metric: Metric<C, G, S>, metadata: Metadata)
        ensures
            Self::spec_new(metric, metadata).spec_metric() == metric,
            Self::spec_new(metric, metadata).spec_metadata() == metadata,
    {
    }

    /// A metric with its metadata.
    pub fn new(metric: Metric<C, G, S>, metadata: Metadata) -> (r: Self)
        ensures
            r == Self::spec_new(metric, metadata),
            r.spec_metric() == metric,
            r.spec_metadata() == metadata,
    {
        MetricInstance { metric, metadata }
    }

    /// The kind of the metric.
    pub fn ty(&self) -> (r: MetricType)
        ensures
            r == self.spec_metric().spec_ty(),
    {
        self.metric.ty()
    }

    /// The metadata.
    pub fn metadata(&self) -> (r: &Metadata)
        ensures
            *r == self.spec_metadata(),
    {
        &self.metadata
    }

    /// The metric.
    pub fn metric(&self) -> (r: &Metric<C, G, S>)
        ensures
            *r == self.spec_metric(),
    {
        &self.metric
    }

    /// The counter, if the metric is one.
    pub fn as_counter(&self) -> (r: Option<&C>)
        ensures
            r == (match self.spec_metric() {
                Metric::Counter(c) => Some(&c),
                _ => None,
            }),
    {
        match &self.metric {
            Metric::Counter(c) => Some(c),
            _ => None,
        }
    }

    /// The gauge, if the metric is one.
    pub fn as_gauge(&self) -> (r: Option<&G>)
        ensures
            r == (match self.spec_metric() {
                Metric::Gauge(g) => Some(&g),
                _ => None,
            }),
    {
        match &self.metric {
            Metric::Gauge(g) => Some(g),
            _ => None,
        }
    }

    /// The summary, if the metric is one.
    pub fn as_summary(&self) -> (r: Option<&S>)
        ensures
            r == (match self.spec_metric() {
                Metric::Summary(s) => Some(&s),
                _ => None,
            }),
    {
        match &self.metric {
            Metric::Summary(s) => Some(s),
            _ => None,
        }
    }
}

/// Whether some entry of `entries` has the name `name`.
pub open spec fn has_name<T>(entries: Seq<(String, T)>, name: Seq<char>) -> bool {
    exists|i: int| 0 <= i < entries.len() && #[trigger] entries[i].0@ == name
}

/// No two entries share a name.
pub open spec fn names_distinct<T>(entries: Seq<(String, T)>) -> bool {
    forall|i: int, j: int|
        0 <= i < j < entries.len() ==> #[trigger] entries[i].0@ != #[trigger] entries[j].0@
}

/// Once a name is registered, registering it again is refused: the
/// entries after a registration hold the name.
pub proof fn lemma_registered_name_taken<T>(entries: Seq<(String, T)>, name: String, item: T)
    ensures
        has_name(entries.push((name, item)), name@),
{
    assert(entries.push((name, item))[entries.len() as int].0@ == name@);
}

/// What a recording asks of the metric it found.
#[derive(Copy, Clone, Debug, PartialEq, Eq, Structural)]
pub enum RecordAction {
    /// Set the counter to the value.
    CounterStore(u64),
    /// Add the value to the counter.
    CounterAdd(u64),
    /// Set the gauge to the value.
    GaugeStore(i64),
    /// Add the value to the gauge.
    GaugeAdd(i64),
    /// Subtract the value from the gauge.
    GaugeSub(i64),
    /// Record the value in the summary, as many times as the count says.
    SummaryRecord(u64, u64),
}

/// The outcome of writing `value` (`count` times for a summary) to a metric
/// of kind `ty`: counters and summaries take it as a `u64`, gauges as an
/// `i64`; a value that does not convert is an error that carries it.
pub open spec fn value_outcome(ty: MetricType, value: MetricValue, count: u64) -> Result<
    RecordAction,
    MetricErrorData,
> {
    match ty {
        MetricType::Counter => match value.spec_as_u64() {
            Some(v) => Ok(RecordAction::CounterStore(v)),
            None => Err(MetricErrorData::InvalidUnsignedValue(value.spec_as_i64_unchecked())),
        },
        MetricType::Gauge => match value.spec_as_i64() {
            Some(v) => Ok(RecordAction::GaugeStore(v)),
            None => Err(MetricErrorData::InvalidSignedValue(value.spec_as_u64_unchecked())),
        },
        MetricType::Summary => match value.spec_as_u64() {
            Some(v) => Ok(RecordAction::SummaryRecord(v, count)),
            None => Err(MetricErrorData::InvalidUnsignedValue(value.spec_as_i64_unchecked())),
        },
    }
}

/// The outcome of incrementing a metric of kind `ty` by `value`: a counter
/// takes it as a `u64`, a gauge as an `i64`; a summary cannot be
/// incremented.
pub open spec fn increment_outcome(ty: MetricType, value: MetricValue) -> Result<
    RecordAction,
    MetricErrorData,
> {
    match ty {
        MetricType::Counter => match value.spec_as_u64() {
            Some(v) => Ok(RecordAction::CounterAdd(v)),
            None => Err(MetricErrorData::InvalidUnsignedValue(value.spec_as_i64_unchecked())),
        },
        MetricType::Gauge => match value.spec_as_i64() {
            Some(v) => Ok(RecordAction::GaugeAdd(v)),
            None => Err(MetricErrorData::InvalidSignedValue(value.spec_as_u64_unchecked())),
        },
        MetricType::Summary => Err(MetricErrorData::InvalidIncrement { ty: MetricType::Summary }),
    }
}

/// The outcome of decrementing a metric of kind `ty` by `value`: only a
/// gauge can be decremented, and it takes the value as an `i64`.
pub open spec fn decrement_outcome(ty: MetricType, value: MetricValue) -> Result<
    RecordAction,
    MetricErrorData,
> {
    match ty {
        MetricType::Gauge => match value.spec_as_i64() {
            Some(v) => Ok(RecordAction::GaugeSub(v)),
            None => Err(MetricErrorData::InvalidSignedValue(value.spec_as_u64_unchecked())),
        },
        _ => Err(MetricErrorData::InvalidDecrement { ty }),
    }
}

/// The outcome of storing `value` in a metric of kind `ty` that should be
/// a counter.
pub open spec fn counter_value_outcome(ty: MetricType, value: u64) -> Result<
    RecordAction,
    MetricErrorData,
> {
    match ty {
        MetricType::Counter => Ok(RecordAction::CounterStore(value)),
        _ => Err(MetricErrorData::WrongType { expected: MetricType::Counter, found: ty }),
    }
}

/// The outcome of storing `value` in a metric of kind `ty` that should be
/// a gauge.
pub open spec fn gauge_value_outcome(ty: MetricType, value: i64) -> Result<
    RecordAction,
    MetricErrorData,
> {
    match ty {
        MetricType::Gauge => Ok(RecordAction::GaugeStore(value)),
        _ => Err(MetricErrorData::WrongType { expected: MetricType::Gauge, found: ty }),
    }
}

/// Writing a value: a gauge stores every value that fits an `i64` (every
/// signed value, and unsigned ones up to `i64::MAX`) and refuses a larger
/// unsigned one, naming it; a counter stores every value that fits a `u64`
/// (every unsigned value, and signed ones from zero up) and refuses a
/// negative one, naming it; a summary records such a value `count` times
/// and refuses a negative one likewise.
pub proof fn lemma_value_outcome_by_kind(x: i64, u: u64, count: u64)
    ensures
        value_outcome(MetricType::Gauge, MetricValue::Signed(x), count) == Ok::<
            RecordAction,
            MetricErrorData,
        >(RecordAction::GaugeStore(x)),
        u <= i64::MAX ==> value_outcome(MetricType::Gauge, MetricValue::Unsigned(u), count)
            == Ok::<RecordAction, MetricErrorData>(RecordAction::GaugeStore(u as i64)),
        u > i64::MAX ==> value_outcome(MetricType::Gauge, MetricValue::Unsigned(u), count)
            == Err::<RecordAction, MetricErrorData>(MetricErrorData::InvalidSignedValue(u)),
        value_outcome(MetricType::Counter, MetricValue::Unsigned(u), count) == Ok::<
            RecordAction,
            MetricErrorData,
        >(RecordAction::CounterStore(u)),
        x >= 0 ==> value_outcome(MetricType::Counter, MetricValue::Signed(x), count) == Ok::<
            RecordAction,
            MetricErrorData,
        >(RecordAction::CounterStore(x as u64)),
        x < 0 ==> value_outcome(MetricType::Counter, MetricValue::Signed(x), count) == Err::<
            RecordAction,
            MetricErrorData,
        >(MetricErrorData::InvalidUnsignedValue(x)),
        value_outcome(MetricType::Summary, MetricValue::Unsigned(u), count) == Ok::<
            RecordAction,
            MetricErrorData,
        >(RecordAction::SummaryRecord(u, count)),
        x >= 0 ==> value_outcome(MetricType::Summary, MetricValue::Signed(x), count) == Ok::<
            RecordAction,
            MetricErrorData,
        >(RecordAction::SummaryRecord(x as u64, count)),
        x < 0 ==> value_outcome(MetricType::Summary, MetricValue::Signed(x), count) == Err::<
            RecordAction,
            MetricErrorData,
        >(MetricErrorData::InvalidUnsignedValue(x)),
{
}

/// Incrementing: a counter adds every value that fits a `u64` and refuses
/// a negative one, naming it; a gauge adds every value that fits an `i64`
/// and refuses a larger unsigned one, naming it; a summary cannot be
/// incremented, whatever the value.
pub proof fn lemma_increment_outcome_by_kind(x: i64, u: u64, v: MetricValue)
    ensures
        increment_outcome(MetricType::Counter, MetricValue::Unsigned(u)) == Ok::<
            RecordAction,
            MetricErrorData,
        >(RecordAction::CounterAdd(u)),
        x >= 0 ==> increment_outcome(MetricType::Counter, MetricValue::Signed(x)) == Ok::<
            RecordAction,
            MetricErrorData,
        >(RecordAction::CounterAdd(x as u64)),
        x < 0 ==> increment_outcome(MetricType::Counter, MetricValue::Signed(x)) == Err::<
            RecordAction,
            MetricErrorData,
        >(MetricErrorData::InvalidUnsignedValue(x)),
        increment_outcome(MetricType::Gauge, MetricValue::Signed(x)) == Ok::<
            RecordAction,
            MetricErrorData,
        >(RecordAction::GaugeAdd(x)),
        u <= i64::MAX ==> increment_outcome(MetricType::Gauge, MetricValue::Unsigned(u)) == Ok::<
            RecordAction,
            MetricErrorData,
        >(RecordAction::GaugeAdd(u as i64)),
        u > i64::MAX ==> increment_outcome(MetricType::Gauge, MetricValue::Unsigned(u)) == Err::<
            RecordAction,
            MetricErrorData,
        >(MetricErrorData::InvalidSignedValue(u)),
        increment_outcome(MetricType::Summary, v) == Err::<RecordAction, MetricErrorData>(
            MetricErrorData::InvalidIncrement { ty: MetricType::Summary },
        ),
{
}

/// Decrementing: a gauge subtracts every value that fits an `i64` and
/// refuses a larger unsigned one, naming it; a counter or a summary cannot
/// be decremented, whatever the value, and the error names its kind.
pub proof fn lemma_decrement_outcome_by_kind(x: i64, u: u64, v: MetricValue)
    ensures
        decrement_outcome(MetricType::Gauge, MetricValue::Signed(x)) == Ok::<
            RecordAction,
            MetricErrorData,
        >(RecordAction::GaugeSub(x)),
        u <= i64::MAX ==> decrement_outcome(MetricType::Gauge, MetricValue::Unsigned(u)) == Ok::<
            RecordAction,
            MetricErrorData,
        >(RecordAction::GaugeSub(u as i64)),
        u > i64::MAX ==> decrement_outcome(MetricType::Gauge, MetricValue::Unsigned(u)) == Err::<
            RecordAction,
            MetricErrorData,
        >(MetricErrorData::InvalidSignedValue(u)),
        decrement_outcome(MetricType::Counter, v) == Err::<RecordAction, MetricErrorData>(
            MetricErrorData::InvalidDecrement { ty: MetricType::Counter },
        ),
        decrement_outcome(MetricType::Summary, v) == Err::<RecordAction, MetricErrorData>(
            MetricErrorData::InvalidDecrement { ty: MetricType::Summary },
        ),
{
}

/// Storing a plain value succeeds exactly on a metric of the expected
/// kind, with the value as given; on any other kind the error names both
/// kinds.
pub proof fn lemma_store_outcome_by_kind(ty: MetricType, u: u64, x: i64)
    ensures
        counter_value_outcome(ty, u) == if ty == MetricType::Counter {
            Ok::<RecordAction, MetricErrorData>(RecordAction::CounterStore(u))
        } else {
            Err::<RecordAction, MetricErrorData>(
                MetricErrorData::WrongType { expected: MetricType::Counter, found: ty },
            )
        },
        gauge_value_outcome(ty, x) == if ty == MetricType::Gauge {
            Ok::<RecordAction, MetricErrorData>(RecordAction::GaugeStore(x))
        } else {
            Err::<RecordAction, MetricErrorData>(
                MetricErrorData::WrongType { expected: MetricType::Gauge, found: ty },
            )
        },
{
}

/// A recording's result is the outcome `o`, an error naming the metric
/// `name`.
pub open spec fn is_outcome<'m>(
    r: Result<RecordAction, MetricError<'m>>,
    name: &'m str,
    o: Result<RecordAction, MetricErrorData>,
) -> bool {
    match r {
        Ok(a) => o == Ok::<RecordAction, MetricErrorData>(a),
        Err(e) => e.metric == name && o == Err::<RecordAction, MetricErrorData>(e.data),
    }
}

/// Named metrics, in the order they were registered.
pub struct Registry<C, G, S> {
    entries: Vec<(String, MetricInstance<C, G, S>)>,
}

impl<C, G, S> Registry<C, G, S> {
    /// The entries, in the order they were registered.
    pub closed spec fn spec_entries(&self) -> Seq<(String, MetricInstance<C, G, S>)> {
        self.entries@
    }

    /// No two entries share a name.
    pub open spec fn wf(&self) -> bool {
        names_distinct(self.spec_entries())
    }

    /// An empty registry.
    pub fn new() -> (r: Self)
        ensures
            r.wf(),
            r.spec_entries() == Seq::<(String, MetricInstance<C, G, S>)>::empty(),
    {
        Registry { entries: Vec::new() }
    }

    /// The number of registered metrics.
    pub fn len(&self) -> (r: usize)
        ensures
            r == self.spec_entries().len(),
    {
        self.entries.len()
    }

    /// The position of the entry named `name`, if there is one.
    fn position(&self, name: &str) -> (r: Option<usize>)
        requires
            self.wf(),
        ensures
            r is None <==> !has_name(self.spec_entries(), name@),
            r matches Some(i) ==> i < self.spec_entries().len() && self.spec_entries()[i as int].0@
                == name@,
    {
        let mut i: usize = 0;
        while i < self.entries.len()
            invariant
                i <= self.entries@.len(),
                forall|k: int| 0 <= k < i ==> #[trigger] self.entries@[k].0@ != name@,
            decreases self.entries@.len() - i,
        {
            if str_eq(self.entries[i].0.as_str(), name) {
                return Some(i);
            }
            i = i + 1;
        }
        None
    }

    /// The metric registered under `name`, if any.
    pub fn get(&self, name: &str) -> (r: Option<&MetricInstance<C, G, S>>)
        requires
            self.wf(),
        ensures
            r is None <==> !has_name(self.spec_entries(), name@),
            r matches Some(m) ==> exists|i: int|
                0 <= i < self.spec_entries().len() && #[trigger] self.spec_entries()[i].0@ == name@
                    && *m == self.spec_entries()[i].1,
    {
        match self.position(name) {
            Some(i) => Some(&self.entries[i].1),
            None => None,
        }
    }

    /// Registers `metric` under `name`; refused when the name is taken.
    fn register_metric(&mut self, name: String, metric: Metric<C, G, S>, metadata: Metadata) -> (r:
        Result<(), RegisterError>)
        requires
            old(self).wf(),
        ensures
            final(self).wf(),
            r is Err <==> has_name(old(self).spec_entries(), name@),
            r matches Err(e) ==> e is MetricAlreadyExists,
            r is Err ==> final(self).spec_entries() == old(self).spec_entries(),
            r is Ok ==> final(self).spec_entries() == old(self).spec_entries().push(
                (name, MetricInstance::spec_new(metric, metadata)),
            ),
    {
        match self.position(name.as_str()) {
            Some(_) => Err(RegisterError::MetricAlreadyExists),
            None => {
                let instance = MetricInstance { metric, metadata };
                self.entries.push((name, instance));
                Ok(())
            },
        }
    }

    /// Registers a counter under `name`; refused when the name is taken.
    pub fn register_counter(&mut self, name: String, counter: C, metadata: Metadata) -> (r: Result<
        (),
        RegisterError,
    >)
        requires
            old(self).wf(),
        ensures
            final(self).wf(),
            r is Err <==> has_name(old(self).spec_entries(), name@),
            r matches Err(e) ==> e is MetricAlreadyExists,
            r is Err ==> final(self).spec_entries() == old(self).spec_entries(),
            r is Ok ==> final(self).spec_entries() == old(self).spec_entries().push(
                (name, MetricInstance::spec_new(Metric::Counter(counter), metadata)),
            ),
    {
        self.register_metric(name, Metric::Counter(counter), metadata)
    }

    /// Registers a gauge under `name`; refused when the name is taken.
    pub fn register_gauge(&mut self, name: String, gauge: G, metadata: Metadata) -> (r: Result<
        (),
        RegisterError,
    >)
        requires
            old(self).wf(),
        ensures
            final(self).wf(),
            r is Err <==> has_name(old(self).spec_entries(), name@),
            r matches Err(e) ==> e is MetricAlreadyExists,
            r is Err ==> final(self).spec_entries() == old(self).spec_entries(),
            r is Ok ==> final(self).spec_entries() == old(self).spec_entries().push(
                (name, MetricInstance::spec_new(Metric::Gauge(gauge), metadata)),
            ),
    {
        self.register_metric(name, Metric::Gauge(gauge), metadata)
    }

    /// Registers a summary under `name`; refused when the name is taken.
    pub fn register_summary(&mut self, name: String, summary: S, metadata: Metadata) -> (r:
        Result<(), RegisterError>)
        requires
            old(self).wf(),
        ensures
            final(self).wf(),
            r is Err <==> has_name(old(self).spec_entries(), name@),
            r matches Err(e) ==> e is MetricAlreadyExists,
            r is Err ==> final(self).spec_entries() == old(self).spec_entries(),
            r is Ok ==> final(self).spec_entries() == old(self).spec_entries().push(
                (name, MetricInstance::spec_new(Metric::Summary(summary), metadata)),
            ),
    {
        self.register_metric(name, Metric::Summary(summary), metadata)
    }

    /// Removes the metric registered under `name`; refused when there is
    /// none.
    pub fn unregister_metric(&mut self, name: &str) -> (r: Result<(), UnregisterError>)
        requires
            old(self).wf(),
        ensures
            final(self).wf(),
            r is Err <==> !has_name(old(self).spec_entries(), name@),
            r matches Err(e) ==> e is NoSuchMetric,
            r is Err ==> final(self).spec_entries() == old(self).spec_entries(),
            r is Ok ==> exists|i: int|
                0 <= i < old(self).spec_entries().len() && #[trigger] old(
                    self,
                ).spec_entries()[i].0@ == name@ && final(self).spec_entries() == old(
                    self,
                ).spec_entries().remove(i),
            !has_name(final(self).spec_entries(), name@),
    {
        match self.position(name) {
            Some(i) => {
                let _ = self.entries.remove(i);
                proof {
                    let o = old(self).spec_entries();
                    assert forall|k: int|
                        0 <= k < self.entries@.len() implies #[trigger] self.entries@[k].0@
                        != name@ by {
                        if k < i {
                            assert(self.entries@[k] == o[k]);
                        } else {
                            assert(self.entries@[k] == o[k + 1]);
                        }
                    }
                }
                Ok(())
            },
            None => Err(UnregisterError::NoSuchMetric),
        }
    }

    /// Checks that the metric registered under `name`, if any, is of the
    /// kind `expected`: `None` when no metric has that name, an error naming
    /// both kinds when it is of another kind.
    pub fn check_kind<'m>(&self, name: &'m str, expected: MetricType) -> (r: Option<
        Result<(), MetricError<'m>>,
    >)
        requires
            self.wf(),
        ensures
            r is None <==> !has_name(self.spec_entries(), name@),
            r matches Some(res) ==> exists|i: int|
                0 <= i < self.spec_entries().len() && #[trigger] self.spec_entries()[i].0@ == name@
                    && match res {
                    Ok(()) => self.spec_entries()[i].1.spec_metric().spec_ty() == expected,
                    Err(e) => self.spec_entries()[i].1.spec_metric().spec_ty() != expected
                        && e.metric == name && e.data == (
                    crate::metrics::error::MetricErrorData::WrongType {
                        expected,
                        found: self.spec_entries()[i].1.spec_metric().spec_ty(),
                    }),
                },
    {
        match self.position(name) {
            Some(i) => {
                let found = self.entries[i].1.ty();
                if found == expected {
                    Some(Ok(()))
                } else {
                    Some(Err(MetricError::wrong_type(name, expected, found)))
                }
            },
            None => None,
        }
    }
    /// The kind of the metric at position `i`.
    fn kind_at(&self, i: usize) -> (r: MetricType)
        requires
            i < self.spec_entries().len(),
        ensures
            r == self.spec_entries()[i as int].1.spec_metric().spec_ty(),
    {
        self.entries[i].1.ty()
    }

    /// Decides a write of `value` (`count` times for a summary) to the
    /// metric named `name`: `None` when no metric has that name; otherwise
    /// the action for its kind, or the error when the value does not
    /// convert.
    pub fn record_value<'m>(&self, name: &'m str, value: MetricValue, count: u64) -> (r: Option<
        Result<RecordAction, MetricError<'m>>,
    >)
        requires
            self.wf(),
        ensures
            r is None <==> !has_name(self.spec_entries(), name@),
            r matches Some(res) ==> exists|i: int|
                0 <= i < self.spec_entries().len() && #[trigger] self.spec_entries()[i].0@ == name@
                    && is_outcome(
                    res,
                    name,
                    value_outcome(self.spec_entries()[i].1.spec_metric().spec_ty(), value, count),
                ),
    {
        match self.position(name) {
            Some(i) => {
                let res = match self.kind_at(i) {
                    MetricType::Counter => match value.as_u64() {
                        Some(v) => Ok(RecordAction::CounterStore(v)),
                        None => Err(MetricError::invalid_unsigned(name, value.as_i64_unchecked())),
                    },
                    MetricType::Gauge => match value.as_i64() {
                        Some(v) => Ok(RecordAction::GaugeStore(v)),
                        None => Err(MetricError::invalid_signed(name, value.as_u64_unchecked())),
                    },
                    MetricType::Summary => match value.as_u64() {
                        Some(v) => Ok(RecordAction::SummaryRecord(v, count)),
                        None => Err(MetricError::invalid_unsigned(name, value.as_i64_unchecked())),
                    },
                };
                Some(res)
            },
            None => None,
        }
    }

    /// Decides an increment by `value` of the metric named `name`: `None`
    /// when no metric has that name; otherwise the action for its kind, or
    /// the error when the value does not convert or the metric is a summary.
    pub fn record_increment<'m>(&self, name: &'m str, value: MetricValue) -> (r: Option<
        Result<RecordAction, MetricError<'m>>,
    >)
        requires
            self.wf(),
        ensures
            r is None <==> !has_name(self.spec_entries(), name@),
            r matches Some(res) ==> exists|i: int|
                0 <= i < self.spec_entries().len() && #[trigger] self.spec_entries()[i].0@ == name@
                    && is_outcome(
                    res,
                    name,
                    increment_outcome(self.spec_entries()[i].1.spec_metric().spec_ty(), value),
                ),
    {
        match self.position(name) {
            Some(i) => {
                let res = match self.kind_at(i) {
                    MetricType::Counter => match value.as_u64() {
                        Some(v) => Ok(RecordAction::CounterAdd(v)),
                        None => Err(MetricError::invalid_unsigned(name, value.as_i64_unchecked())),
                    },
                    MetricType::Gauge => match value.as_i64() {
                        Some(v) => Ok(RecordAction::GaugeAdd(v)),
                        None => Err(MetricError::invalid_signed(name, value.as_u64_unchecked())),
                    },
                    MetricType::Summary => Err(
                        MetricError::invalid_increment(name, MetricType::Summary),
                    ),
                };
                Some(res)
            },
            None => None,
        }
    }

    /// Decides a decrement by `value` of the metric named `name`: `None`
    /// when no metric has that name; otherwise the action for a gauge, or
    /// the error when the value does not convert or the metric is not a
    /// gauge.
    pub fn record_decrement<'m>(&self, name: &'m str, value: MetricValue) -> (r: Option<
        Result<RecordAction, MetricError<'m>>,
    >)
        requires
            self.wf(),
        ensures
            r is None <==> !has_name(self.spec_entries(), name@),
            r matches Some(res) ==> exists|i: int|
                0 <= i < self.spec_entries().len() && #[trigger] self.spec_entries()[i].0@ == name@
                    && is_outcome(
                    res,
                    name,
                    decrement_outcome(self.spec_entries()[i].1.spec_metric().spec_ty(), value),
                ),
    {
        match self.position(name) {
            Some(i) => {
                let ty = self.kind_at(i);
                let res = match ty {
                    MetricType::Gauge => match value.as_i64() {
                        Some(v) => Ok(RecordAction::GaugeSub(v)),
                        None => Err(MetricError::invalid_signed(name, value.as_u64_unchecked())),
                    },
                    _ => Err(MetricError::invalid_decrement(name, ty)),
                };
                Some(res)
            },
            None => None,
        }
    }

    /// Decides storing `value` in the counter named `name`: `None` when no
    /// metric has that name; the error naming both kinds when it is not a
    /// counter.
    pub fn record_counter_value<'m>(&self, name: &'m str, value: u64) -> (r: Option<
        Result<RecordAction, MetricError<'m>>,
    >)
        requires
            self.wf(),
        ensures
            r is None <==> !has_name(self.spec_entries(), name@),
            r matches Some(res) ==> exists|i: int|
                0 <= i < self.spec_entries().len() && #[trigger] self.spec_entries()[i].0@ == name@
                    && is_outcome(
                    res,
                    name,
                    counter_value_outcome(self.spec_entries()[i].1.spec_metric().spec_ty(), value),
                ),
    {
        match self.position(name) {
            Some(i) => {
                let ty = self.kind_at(i);
                let res = match ty {
                    MetricType::Counter => Ok(RecordAction::CounterStore(value)),
                    _ => Err(MetricError::wrong_type(name, MetricType::Counter, ty)),
                };
                Some(res)
            },
            None => None,
        }
    }

    /// Decides storing `value` in the gauge named `name`: `None` when no
    /// metric has that name; the error naming both kinds when it is not a
    /// gauge.
    pub fn record_gauge_value<'m>(&self, name: &'m str, value: i64) -> (r: Option<
        Result<RecordAction, MetricError<'m>>,
    >)
        requires
            self.wf(),
        ensures
            r is None <==> !has_name(self.spec_entries(), name@),
            r matches Some(res) ==> exists|i: int|
                0 <= i < self.spec_entries().len() && #[trigger] self.spec_entries()[i].0@ == name@
                    && is_outcome(
                    res,
                    name,
                    gauge_value_outcome(self.spec_entries()[i].1.spec_metric().spec_ty(), value),
                ),
    {
        match self.position(name) {
            Some(i) => {
                let ty = self.kind_at(i);
                let res = match ty {
                    MetricType::Gauge => Ok(RecordAction::GaugeStore(value)),
                    _ => Err(MetricError::wrong_type(name, MetricType::Gauge, ty)),
                };
                Some(res)
            },
            None => None,
        }
    }
}

} // verus!
