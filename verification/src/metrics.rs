//! Metrics, and what describes them.
use vstd::prelude::*;

verus! {

/// Unit of measure of a metric.
#[derive(Clone, Copy, Debug, PartialEq, Eq)]
pub enum Unit {
    Amperes,
    Bytes,
    Celsius,
    Grams,
    Joules,
    Meters,
    Ratios,
    Seconds,
    Volts,
    Other(&'static str),
}

impl Unit {
    /// The name of the unit in exported metrics.
    pub open spec fn text(self) -> Seq<char> {
        match self {
            Unit::Amperes => "amperes"@,
            Unit::Bytes => "bytes"@,
            Unit::Celsius => "celsius"@,
            Unit::Grams => "grams"@,
            Unit::Joules => "joules"@,
            Unit::Meters => "meters"@,
            Unit::Ratios => "ratios"@,
            Unit::Seconds => "seconds"@,
            Unit::Volts => "volts"@,
            Unit::Other(other) => other@,
        }
    }

    /// Returns the name of the unit in exported metrics.
    pub fn as_str(&self) -> (name: &'static str)
        ensures
            name@ == self.text(),
    {
        match *self {
            Unit::Amperes => "amperes",
            Unit::Bytes => "bytes",
            Unit::Celsius => "celsius",
            Unit::Grams => "grams",
            Unit::Joules => "joules",
            Unit::Meters => "meters",
            Unit::Ratios => "ratios",
            Unit::Seconds => "seconds",
            Unit::Volts => "volts",
            Unit::Other(other) => other,
        }
    }
}

/// What is known of a metric beforehand: its name, its help text (without a full stop at
/// the end), and its unit.
#[derive(Clone, Copy, Debug, PartialEq, Eq)]
pub struct MetricDescriptor {
    pub name: &'static str,
    pub help: &'static str,
    pub unit: Option<Unit>,
}

/// A value together with the labels, each a name and a text, that tell it apart from the other
/// values of a family.
#[derive(Clone, Debug, PartialEq, Eq)]
pub struct Labelled<V> {
    pub labels: Vec<(String, String)>,
    pub value: V,
}

/// Type and value of a metric at the time of a scrape. A family holds a value for each of several
/// label sets. If a label set occurs more than once, it is the last value that counts.
#[derive(Clone, Debug, PartialEq, Eq)]
pub enum MetricValue {
    /// Number that only grows.
    Counter(u64),
    /// Number that may grow and shrink.
    Gauge(i64),
    /// Family of numbers that only grow.
    CounterFamily(Vec<Labelled<u64>>),
    /// Family of numbers that may grow and shrink.
    GaugeFamily(Vec<Labelled<i64>>),
}

/// A metric as it is at the time of a scrape.
#[derive(Clone, Debug, PartialEq, Eq)]
pub struct Metric {
    pub descriptor: MetricDescriptor,
    pub value: MetricValue,
}

/// Mathematical counterpart of a label set.
pub type LabelSet = Seq<(Seq<char>, Seq<char>)>;

/// The view of a label set.
pub open spec fn label_set(labels: Seq<(String, String)>) -> LabelSet {
    labels.map_values(|label: (String, String)| (label.0@, label.1@))
}

/// Type of a metric.
pub enum MetricKind {
    Counter,
    Gauge,
}

/// The value of a metric, or the values of a family by their labels.
#[verifier::ext_equal]
pub enum Samples {
    Single(int),
    Family(Map<LabelSet, int>),
}

/// The values of a family of counters.
pub open spec fn counter_values(values: Seq<Labelled<u64>>) -> Map<LabelSet, int>
    decreases values.len(),
{
    if values.len() == 0 {
        Map::empty()
    } else {
        counter_values(values.drop_last()).insert(
            label_set(values.last().labels@),
            values.last().value as int,
        )
    }
}

/// The values of a family of gauges.
pub open spec fn gauge_values(values: Seq<Labelled<i64>>) -> Map<LabelSet, int>
    decreases values.len(),
{
    if values.len() == 0 {
        Map::empty()
    } else {
        gauge_values(values.drop_last()).insert(
            label_set(values.last().labels@),
            values.last().value as int,
        )
    }
}

impl MetricValue {
    /// The type of the metric.
    pub open spec fn kind(self) -> MetricKind {
        match self {
            MetricValue::Counter(_) | MetricValue::CounterFamily(_) => MetricKind::Counter,
            MetricValue::Gauge(_) | MetricValue::GaugeFamily(_) => MetricKind::Gauge,
        }
    }

    /// The values.
    pub open spec fn samples(self) -> Samples {
        match self {
            MetricValue::Counter(value) => Samples::Single(value as int),
            MetricValue::Gauge(value) => Samples::Single(value as int),
            MetricValue::CounterFamily(values) => Samples::Family(counter_values(values@)),
            MetricValue::GaugeFamily(values) => Samples::Family(gauge_values(values@)),
        }
    }
}

/// Mathematical counterpart of a [`Metric`].
#[verifier::ext_equal]
pub struct MetricView {
    pub name: Seq<char>,
    pub help: Seq<char>,
    pub unit: Option<Seq<char>>,
    pub kind: MetricKind,
    pub samples: Samples,
}

/// The name of an optional unit.
pub open spec fn unit_text(unit: Option<Unit>) -> Option<Seq<char>> {
    match unit {
        Some(unit) => Some(unit.text()),
        None => None,
    }
}

impl View for Metric {
    type V = MetricView;

    open spec fn view(&self) -> MetricView {
        MetricView {
            name: self.descriptor.name@,
            help: self.descriptor.help@,
            unit: unit_text(self.descriptor.unit),
            kind: self.value.kind(),
            samples: self.value.samples(),
        }
    }
}

/// The views of metrics.
pub open spec fn views(metrics: Seq<Metric>) -> Seq<MetricView> {
    metrics.map_values(|m: Metric| m@)
}

/// Of the values of a family of counters, the last one under each label set counts.
pub(crate) proof fn lemma_counter_values(values: Seq<Labelled<u64>>)
    ensures
        forall|i: int|
            0 <= i < values.len() ==> counter_values(values).contains_key(
                label_set((#[trigger] values[i]).labels@),
            ),
        forall|labels: LabelSet| #[trigger]
            counter_values(values).contains_key(labels) ==> exists|i: int|
                0 <= i < values.len() && label_set((#[trigger] values[i]).labels@) == labels,
        forall|i: int|
            0 <= i < values.len() && (forall|j: int|
                i < j < values.len() ==> label_set((#[trigger] values[j]).labels@) != label_set(
                    values[i].labels@,
                )) ==> counter_values(values)[label_set((#[trigger] values[i]).labels@)]
                == values[i].value,
    decreases values.len(),
{
    if values.len() > 0 {
        let front = values.drop_last();
        let last = values.len() - 1;
        let map = counter_values(values);
        lemma_counter_values(front);
        assert forall|i: int| 0 <= i < values.len() implies map.contains_key(
            label_set((#[trigger] values[i]).labels@),
        ) by {
            if i < last {
                assert(front[i] == values[i]);
            }
        }
        assert forall|labels: LabelSet| #[trigger] map.contains_key(labels) implies exists|i: int|
            0 <= i < values.len() && label_set((#[trigger] values[i]).labels@) == labels by {
            if labels == label_set(values[last].labels@) {
            } else {
                assert(counter_values(front).contains_key(labels));
                let i = choose|i: int|
                    0 <= i < front.len() && label_set((#[trigger] front[i]).labels@) == labels;
                assert(values[i] == front[i]);
            }
        }
        assert forall|i: int|
            0 <= i < values.len() && (forall|j: int|
                i < j < values.len() ==> label_set((#[trigger] values[j]).labels@) != label_set(
                    values[i].labels@,
                )) implies map[label_set((#[trigger] values[i]).labels@)] == values[i].value by {
            if i < last {
                assert(label_set(values[last].labels@) != label_set(values[i].labels@));
                assert(front[i] == values[i]);
                assert forall|j: int| i < j < front.len() implies label_set(
                    (#[trigger] front[j]).labels@,
                ) != label_set(front[i].labels@) by {
                    assert(front[j] == values[j]);
                }
            }
        }
    }
}

/// Of the values of a family of gauges, the last one under each label set counts.
pub(crate) proof fn lemma_gauge_values(values: Seq<Labelled<i64>>)
    ensures
        forall|i: int|
            0 <= i < values.len() ==> gauge_values(values).contains_key(
                label_set((#[trigger] values[i]).labels@),
            ),
        forall|labels: LabelSet| #[trigger]
            gauge_values(values).contains_key(labels) ==> exists|i: int|
                0 <= i < values.len() && label_set((#[trigger] values[i]).labels@) == labels,
        forall|i: int|
            0 <= i < values.len() && (forall|j: int|
                i < j < values.len() ==> label_set((#[trigger] values[j]).labels@) != label_set(
                    values[i].labels@,
                )) ==> gauge_values(values)[label_set((#[trigger] values[i]).labels@)]
                == values[i].value,
    decreases values.len(),
{
    if values.len() > 0 {
        let front = values.drop_last();
        let last = values.len() - 1;
        let map = gauge_values(values);
        lemma_gauge_values(front);
        assert forall|i: int| 0 <= i < values.len() implies map.contains_key(
            label_set((#[trigger] values[i]).labels@),
        ) by {
            if i < last {
                assert(front[i] == values[i]);
            }
        }
        assert forall|labels: LabelSet| #[trigger] map.contains_key(labels) implies exists|i: int|
            0 <= i < values.len() && label_set((#[trigger] values[i]).labels@) == labels by {
            if labels == label_set(values[last].labels@) {
            } else {
                assert(gauge_values(front).contains_key(labels));
                let i = choose|i: int|
                    0 <= i < front.len() && label_set((#[trigger] front[i]).labels@) == labels;
                assert(values[i] == front[i]);
            }
        }
        assert forall|i: int|
            0 <= i < values.len() && (forall|j: int|
                i < j < values.len() ==> label_set((#[trigger] values[j]).labels@) != label_set(
                    values[i].labels@,
                )) implies map[label_set((#[trigger] values[i]).labels@)] == values[i].value by {
            if i < last {
                assert(label_set(values[last].labels@) != label_set(values[i].labels@));
                assert(front[i] == values[i]);
                assert forall|j: int| i < j < front.len() implies label_set(
                    (#[trigger] front[j]).labels@,
                ) != label_set(front[i].labels@) by {
                    assert(front[j] == values[j]);
                }
            }
        }
    }
}

/// A family of counters has a value for the labels of each of its elements and for no other labels.
/// This is the value of the last element with these labels.
pub proof fn lemma_counter_family(value: MetricValue)
    requires
        value is CounterFamily,
    ensures
        ({
            let values = value->CounterFamily_0@;
            let labels_of = |i: int|
                Seq::new(
                    values[i].labels@.len(),
                    |k: int| (values[i].labels@[k].0@, values[i].labels@[k].1@),
                );
            &&& value.kind() is Counter
            &&& value.samples() is Family
            &&& forall|i: int|
                0 <= i < values.len() ==> value.samples()->Family_0.contains_key(
                    #[trigger] labels_of(i),
                )
            &&& forall|labels: LabelSet| #[trigger]
                value.samples()->Family_0.contains_key(labels) ==> exists|i: int|
                    0 <= i < values.len() && #[trigger] labels_of(i) == labels
            &&& forall|i: int|
                0 <= i < values.len() && (forall|j: int|
                    i < j < values.len() ==> #[trigger] labels_of(j) != labels_of(i))
                    ==> value.samples()->Family_0[#[trigger] labels_of(i)] == values[i].value
        }),
{
    let values = value->CounterFamily_0@;
    let labels_of = |i: int|
        Seq::new(
            values[i].labels@.len(),
            |k: int| (values[i].labels@[k].0@, values[i].labels@[k].1@),
        );
    let map = value.samples()->Family_0;
    lemma_counter_values(values);
    assert forall|i: int| 0 <= i < values.len() implies #[trigger] labels_of(i) == label_set(
        values[i].labels@,
    ) by {
        assert(labels_of(i) =~= label_set(values[i].labels@));
    }
    assert forall|i: int| 0 <= i < values.len() implies map.contains_key(
        #[trigger] labels_of(i),
    ) by {
        assert(map.contains_key(label_set(values[i].labels@)));
    }
    assert forall|labels: LabelSet| #[trigger] map.contains_key(labels) implies exists|i: int|
        0 <= i < values.len() && #[trigger] labels_of(i) == labels by {
        let i = choose|i: int|
            0 <= i < values.len() && label_set((#[trigger] values[i]).labels@) == labels;
        assert(labels_of(i) == labels);
    }
    assert forall|i: int|
        0 <= i < values.len() && (forall|j: int|
            i < j < values.len() ==> #[trigger] labels_of(j) != labels_of(i)) implies map[
    #[trigger] labels_of(i)] == values[i].value by {
        assert forall|j: int| i < j < values.len() implies label_set(
            (#[trigger] values[j]).labels@,
        ) != label_set(values[i].labels@) by {
            assert(labels_of(j) != labels_of(i));
        }
        assert(map[label_set(values[i].labels@)] == values[i].value);
    }
}

/// A family of gauges has a value for the labels of each of its elements and for no other labels.
/// This is the value of the last element with these labels.
pub proof fn lemma_gauge_family(value: MetricValue)
    requires
        value is GaugeFamily,
    ensures
        ({
            let values = value->GaugeFamily_0@;
            let labels_of = |i: int|
                Seq::new(
                    values[i].labels@.len(),
                    |k: int| (values[i].labels@[k].0@, values[i].labels@[k].1@),
                );
            &&& value.kind() is Gauge
            &&& value.samples() is Family
            &&& forall|i: int|
                0 <= i < values.len() ==> value.samples()->Family_0.contains_key(
                    #[trigger] labels_of(i),
                )
            &&& forall|labels: LabelSet| #[trigger]
                value.samples()->Family_0.contains_key(labels) ==> exists|i: int|
                    0 <= i < values.len() && #[trigger] labels_of(i) == labels
            &&& forall|i: int|
                0 <= i < values.len() && (forall|j: int|
                    i < j < values.len() ==> #[trigger] labels_of(j) != labels_of(i))
                    ==> value.samples()->Family_0[#[trigger] labels_of(i)] == values[i].value
        }),
{
    let values = value->GaugeFamily_0@;
    let labels_of = |i: int|
        Seq::new(
            values[i].labels@.len(),
            |k: int| (values[i].labels@[k].0@, values[i].labels@[k].1@),
        );
    let map = value.samples()->Family_0;
    lemma_gauge_values(values);
    assert forall|i: int| 0 <= i < values.len() implies #[trigger] labels_of(i) == label_set(
        values[i].labels@,
    ) by {
        assert(labels_of(i) =~= label_set(values[i].labels@));
    }
    assert forall|i: int| 0 <= i < values.len() implies map.contains_key(
        #[trigger] labels_of(i),
    ) by {
        assert(map.contains_key(label_set(values[i].labels@)));
    }
    assert forall|labels: LabelSet| #[trigger] map.contains_key(labels) implies exists|i: int|
        0 <= i < values.len() && #[trigger] labels_of(i) == labels by {
        let i = choose|i: int|
            0 <= i < values.len() && label_set((#[trigger] values[i]).labels@) == labels;
        assert(labels_of(i) == labels);
    }
    assert forall|i: int|
        0 <= i < values.len() && (forall|j: int|
            i < j < values.len() ==> #[trigger] labels_of(j) != labels_of(i)) implies map[
    #[trigger] labels_of(i)] == values[i].value by {
        assert forall|j: int| i < j < values.len() implies label_set(
            (#[trigger] values[j]).labels@,
        ) != label_set(values[i].labels@) by {
            assert(labels_of(j) != labels_of(i));
        }
        assert(map[label_set(values[i].labels@)] == values[i].value);
    }
}

/// The view of a metric holds what its descriptor holds, a unit by its name, and the type and the
/// value of the metric.
pub proof fn lemma_metric_view(metric: Metric)
    ensures
        metric@.name == metric.descriptor.name@,
        metric@.help == metric.descriptor.help@,
        metric@.unit is Some <==> metric.descriptor.unit is Some,
        metric.descriptor.unit matches Some(unit) ==> metric@.unit == Some(unit.text()),
        metric.descriptor.unit matches Some(Unit::Other(name)) ==> metric@.unit == Some(name@),
        metric@.kind == metric.value.kind(),
        metric@.samples == metric.value.samples(),
        metric.value matches MetricValue::Counter(value) ==> metric@.kind is Counter
            && metric@.samples == Samples::Single(value as int),
        metric.value matches MetricValue::Gauge(value) ==> metric@.kind is Gauge && metric@.samples
            == Samples::Single(value as int),
{
}

/// The name of a unit is its own name in lower case.
pub proof fn lemma_unit_names()
    ensures
        Unit::Amperes.text() == "amperes"@,
        Unit::Bytes.text() == "bytes"@,
        Unit::Celsius.text() == "celsius"@,
        Unit::Grams.text() == "grams"@,
        Unit::Joules.text() == "joules"@,
        Unit::Meters.text() == "meters"@,
        Unit::Ratios.text() == "ratios"@,
        Unit::Seconds.text() == "seconds"@,
        Unit::Volts.text() == "volts"@,
        forall|name: &'static str| #[trigger] Unit::Other(name).text() == name@,
{
}

/// Metrics have one view each, in their order.
pub proof fn lemma_views(metrics: Seq<Metric>)
    ensures
        views(metrics).len() == metrics.len(),
        forall|i: int| 0 <= i < metrics.len() ==> #[trigger] views(metrics)[i] == metrics[i]@,
{
}

/// What is known beforehand of a group of metrics that are defined together: the crate that
/// defines the group, and the metrics in it.
#[derive(Clone, Copy, Debug, PartialEq, Eq)]
pub struct MetricGroupDescriptor {
    pub crate_name: &'static str,
    pub crate_version: &'static str,
    pub metrics: &'static [MetricDescriptor],
}

/// Group of metrics that can report its state.
pub trait Metrics {
    /// Description of the group.
    const DESCRIPTOR: MetricGroupDescriptor;

    /// Returns the metrics of the group as they are now.
    fn visit_metrics(&self) -> (metrics: Vec<Metric>);
}

/// Whether a group may report the given metrics. A group whose state changes behind a shared
/// reference may report different ones at different times.
pub open spec fn may_report<M: Metrics>(group: M, metrics: Seq<MetricView>) -> bool {
    exists|visited: Vec<Metric>| #[trigger]
        call_ensures(M::visit_metrics, (&group,), visited) && views(visited@) == metrics
}

/// What a group may report are the metrics that it returns when it is visited, all of them and in
/// their order.
pub proof fn lemma_report<M: Metrics>(group: M, metrics: Seq<MetricView>)
    requires
        may_report(group, metrics),
    ensures
        exists|visited: Vec<Metric>| #[trigger]
            call_ensures(M::visit_metrics, (&group,), visited) && metrics.len() == visited@.len()
                && forall|i: int|
                0 <= i < visited@.len() ==> #[trigger] metrics[i] == visited@[i]@,
{
    let visited = choose|visited: Vec<Metric>| #[trigger]
        call_ensures(M::visit_metrics, (&group,), visited) && views(visited@) == metrics;
    assert forall|i: int| 0 <= i < visited@.len() implies #[trigger] metrics[i] == visited@[i]@ by {
        assert(views(visited@)[i] == visited@[i]@);
    }
}

/// A group that may be absent reports nothing if it is.
impl<M: Metrics> Metrics for Option<M> {
    const DESCRIPTOR: MetricGroupDescriptor = M::DESCRIPTOR;

    fn visit_metrics(&self) -> (metrics: Vec<Metric>)
        ensures
            self is None ==> metrics@ == Seq::<Metric>::empty(),
            self matches Some(group) ==> call_ensures(M::visit_metrics, (&group,), metrics),
    {
        match self {
            Some(group) => group.visit_metrics(),
            None => Vec::new(),
        }
    }
}

/// A borrowed group reports what the group itself reports.
impl<'a, M: Metrics> Metrics for &'a M {
    const DESCRIPTOR: MetricGroupDescriptor = M::DESCRIPTOR;

    fn visit_metrics(&self) -> (metrics: Vec<Metric>)
        ensures
            call_ensures(M::visit_metrics, (*self,), metrics),
    {
        (**self).visit_metrics()
    }
}

} // verus!
