//! Text in which metrics are exported, as the `prometheus_client` crate writes it.
use vstd::prelude::*;
use prometheus_client::encoding::{DescriptorEncoder, EncodeMetric};
use prometheus_client::metrics::counter::{ConstCounter, Counter};
use prometheus_client::metrics::family::Family;
use prometheus_client::metrics::gauge::{ConstGauge, Gauge};
use prometheus_client::metrics::MetricType;
use prometheus_client::registry::{Registry as TextRegistry, Unit};
use crate::metrics::{
    LabelSet, Labelled, Metric, MetricKind, MetricValue, MetricView, Samples,
};

verus! {

/// Error of the standard library's formatting machinery.
#[verifier::external_type_specification]
#[verifier::external_body]
pub struct ExFmtError(std::fmt::Error);

/// Encoder that `prometheus_client` hands to a collector.
#[verifier::external_type_specification]
#[verifier::external_body]
pub struct ExDescriptorEncoder<'a>(DescriptorEncoder<'a>);

/// Registry of `prometheus_client`.
#[verifier::external_type_specification]
#[verifier::external_body]
pub struct ExTextRegistry(TextRegistry);

impl MetricKind {
    /// The name of the metric type.
    pub open spec fn type_text(self) -> Seq<char> {
        match self {
            MetricKind::Counter => "counter"@,
            MetricKind::Gauge => "gauge"@,
        }
    }

    /// What the OpenMetrics format appends to the name of a metric in front of a value.
    pub open spec fn suffix(self) -> Seq<char> {
        match self {
            MetricKind::Counter => "_total"@,
            MetricKind::Gauge => ""@,
        }
    }
}

impl MetricView {
    /// The name of the metric together with its unit.
    pub open spec fn full_name(self) -> Seq<char> {
        match self.unit {
            Some(unit) => self.name + "_"@ + unit,
            None => self.name,
        }
    }

    /// The metric with a full stop at the end of its help text.
    pub open spec fn dotted(self) -> MetricView {
        MetricView { help: self.help + "."@, ..self }
    }

    /// The line with the help text.
    pub open spec fn help_line(self, prefix: Seq<char>) -> Seq<char> {
        "# HELP "@ + (prefix + self.full_name()) + " "@ + self.help
    }

    /// The line with the metric type.
    pub open spec fn type_line(self, prefix: Seq<char>) -> Seq<char> {
        "# TYPE "@ + (prefix + self.full_name()) + " "@ + self.kind.type_text()
    }

    /// The line with the unit and the end of that line; nothing, if the metric has no unit.
    pub open spec fn unit_line(self, prefix: Seq<char>) -> Seq<char> {
        match self.unit {
            Some(unit) => "# UNIT "@ + (prefix + self.full_name()) + " "@ + unit + "\n"@,
            None => Seq::empty(),
        }
    }

    /// The lines that describe the metric. `prefix` stands in front of all names.
    pub open spec fn head_text(self, prefix: Seq<char>) -> Seq<char> {
        self.help_line(prefix) + "\n"@ + self.type_line(prefix) + "\n"@ + self.unit_line(prefix)
    }
}

/// A value as it is written: with the labels that it has in a family, or without any.
#[verifier::ext_equal]
pub struct Sample {
    pub labels: Option<LabelSet>,
    pub value: int,
}

/// The text of labels, separated by commas. What a label holds is written as it is.
pub open spec fn labels_text(labels: LabelSet) -> Seq<char>
    decreases labels.len(),
{
    if labels.len() == 0 {
        Seq::empty()
    } else {
        let (name, text) = labels.last();
        let front = labels_text(labels.drop_last());
        (if labels.len() == 1 {
            front
        } else {
            front + ","@
        }) + name + "=\""@ + text + "\""@
    }
}

/// What follows the name of a metric in front of a value with the given labels. `labels` are
/// the labels of the registry in curly brackets, or nothing if it has none; those of the value
/// follow in the same brackets.
pub open spec fn bracketed(labels: Seq<char>, of_value: Option<LabelSet>) -> Seq<char> {
    match of_value {
        Some(own) => (if labels.len() == 0 {
            "{"@
        } else {
            labels.drop_last() + ","@
        }) + labels_text(own) + "}"@,
        None => labels,
    }
}

/// A metric together with the values that are written for it, in the order in which they are.
#[verifier::ext_equal]
pub struct ListedMetric {
    pub metric: MetricView,
    pub samples: Seq<Sample>,
}

/// Whether `listed` holds the given values, each once. The values of a family may be listed in any
/// order.
pub open spec fn is_listing(samples: Samples, listed: Seq<Sample>) -> bool {
    match samples {
        Samples::Single(value) => listed == seq![Sample { labels: None, value }],
        Samples::Family(values) => {
            &&& forall|i: int|
                0 <= i < listed.len() ==> ((#[trigger] listed[i]).labels matches Some(labels)
                    && values.contains_pair(labels, listed[i].value))
            &&& forall|i: int, j: int|
                0 <= i < j < listed.len() ==> (#[trigger] listed[i]).labels != (
                #[trigger] listed[j]).labels
            &&& forall|labels: LabelSet| #[trigger]
                values.contains_key(labels) ==> exists|i: int|
                    0 <= i < listed.len() && (#[trigger] listed[i]).labels == Some(labels)
        },
    }
}

/// Whether `listed` are the given metrics together with their values.
pub open spec fn lists(metrics: Seq<MetricView>, listed: Seq<ListedMetric>) -> bool {
    &&& listed.len() == metrics.len()
    &&& forall|i: int|
        0 <= i < listed.len() ==> (#[trigger] listed[i]).metric == metrics[i] && is_listing(
            metrics[i].samples,
            listed[i].samples,
        )
}

impl ListedMetric {
    /// The metric with a full stop at the end of its help text.
    pub open spec fn dotted(self) -> ListedMetric {
        ListedMetric { metric: self.metric.dotted(), ..self }
    }

    /// The line with a value. `suffix` follows the name of the metric, and `labels` and those of
    /// the value follow the suffix.
    pub open spec fn value_line(
        self,
        prefix: Seq<char>,
        suffix: Seq<char>,
        labels: Seq<char>,
        i: int,
    ) -> Seq<char> {
        (prefix + self.metric.full_name()) + suffix + bracketed(labels, self.samples[i].labels)
            + " "@ + crate::text::signed_decimal(self.samples[i].value)
    }

    /// The lines with the first `count` values.
    pub open spec fn value_lines(
        self,
        prefix: Seq<char>,
        suffix: Seq<char>,
        labels: Seq<char>,
        count: nat,
    ) -> Seq<char>
        decreases count,
    {
        if count == 0 {
            Seq::empty()
        } else {
            self.value_lines(prefix, suffix, labels, (count - 1) as nat) + self.value_line(
                prefix,
                suffix,
                labels,
                count - 1,
            ) + "\n"@
        }
    }

    /// The metric in the OpenMetrics text format. `prefix` stands in front of all names, and
    /// `labels` behind the name in front of each value.
    pub open spec fn open_metrics_text(self, prefix: Seq<char>, labels: Seq<char>) -> Seq<char> {
        self.metric.head_text(prefix) + self.value_lines(
            prefix,
            self.metric.kind.suffix(),
            labels,
            self.samples.len(),
        )
    }
}

/// The text of several metrics, one after the other.
pub open spec fn all_text(
    prefix: Seq<char>,
    labels: Seq<char>,
    metrics: Seq<ListedMetric>,
) -> Seq<char>
    decreases metrics.len(),
{
    if metrics.len() == 0 {
        Seq::empty()
    } else {
        all_text(prefix, labels, metrics.drop_last()) + metrics.last().open_metrics_text(
            prefix,
            labels,
        )
    }
}

/// The metrics with full stops at the ends of their help texts.
pub open spec fn all_dotted(metrics: Seq<ListedMetric>) -> Seq<ListedMetric> {
    metrics.map_values(|m: ListedMetric| m.dotted())
}

/// The complete OpenMetrics exposition of metrics.
pub open spec fn complete_text(metrics: Seq<ListedMetric>) -> Seq<char> {
    all_text(Seq::empty(), Seq::empty(), all_dotted(metrics)) + "# EOF\n"@
}

/// Metrics without labels, together with their values.
pub open spec fn listed_single(metrics: Seq<MetricView>) -> Seq<ListedMetric> {
    metrics.map_values(
        |m: MetricView|
            ListedMetric {
                metric: m,
                samples: seq![Sample { labels: None, value: m.samples->Single_0 }],
            },
    )
}

/// There is one way only in which metrics without labels are listed.
pub proof fn lemma_single_values(metrics: Seq<MetricView>, listed: Seq<ListedMetric>)
    requires
        forall|i: int| 0 <= i < metrics.len() ==> (#[trigger] metrics[i]).samples is Single,
    ensures
        lists(metrics, listed) <==> listed == listed_single(metrics),
{
    let single = listed_single(metrics);
    if lists(metrics, listed) {
        assert forall|i: int| 0 <= i < listed.len() implies #[trigger] listed[i] == single[i] by {
            assert(metrics[i].samples is Single);
        }
        assert(listed =~= single);
    }
    if listed == single {
        assert forall|i: int| 0 <= i < listed.len() implies (#[trigger] listed[i]).metric
            == metrics[i] && is_listing(metrics[i].samples, listed[i].samples) by {
            assert(metrics[i].samples is Single);
        }
    }
}

/// However the values of a metric are listed, they are the same values: two listings differ at most
/// in their order.
pub proof fn lemma_listings_agree(samples: Samples, first: Seq<Sample>, second: Seq<Sample>)
    requires
        is_listing(samples, first),
        is_listing(samples, second),
    ensures
        first.no_duplicates(),
        second.no_duplicates(),
        first.to_set() == second.to_set(),
        first.len() == second.len(),
{
    lemma_listing_part(samples, first, second);
    lemma_listing_part(samples, second, first);
    assert(first.to_set() =~= second.to_set());
    first.unique_seq_to_set();
    second.unique_seq_to_set();
}

proof fn lemma_listing_part(samples: Samples, first: Seq<Sample>, second: Seq<Sample>)
    requires
        is_listing(samples, first),
        is_listing(samples, second),
    ensures
        first.no_duplicates(),
        forall|sample: Sample| #[trigger] first.contains(sample) ==> second.contains(sample),
{
    assert forall|i: int, j: int|
        0 <= i < first.len() && 0 <= j < first.len() && i != j implies first[i] != first[j] by {
        if i < j {
            assert(samples is Family ==> first[i].labels != first[j].labels);
        } else {
            assert(samples is Family ==> first[j].labels != first[i].labels);
        }
    }
    assert forall|sample: Sample| #[trigger] first.contains(sample) implies second.contains(
        sample,
    ) by {
        let i = choose|i: int| 0 <= i < first.len() && first[i] == sample;
        if let Samples::Family(values) = samples {
            let labels = first[i].labels->0;
            assert(values.contains_pair(labels, first[i].value));
            assert(values.contains_key(labels));
            let j = choose|j: int|
                0 <= j < second.len() && (#[trigger] second[j]).labels == Some(labels);
            assert(values.contains_pair(labels, second[j].value));
            assert(second[j] == sample);
        }
    }
}

/// The text of labels as a concatenation.
proof fn lemma_labels_text(own: LabelSet)
    ensures
        labels_text(own) == Seq::new(
            own.len(),
            |k: int|
                (if k == 0 {
                    ""@
                } else {
                    ","@
                }) + own[k].0 + "=\""@ + own[k].1 + "\""@,
        ).flatten(),
    decreases own.len(),
{
    reveal_strlit("");
    let piece = |k: int|
        (if k == 0 {
            ""@
        } else {
            ","@
        }) + own[k].0 + "=\""@ + own[k].1 + "\""@;
    let pieces = Seq::new(own.len(), piece);
    if own.len() > 0 {
        let front = own.drop_last();
        let front_pieces = Seq::new(
            front.len(),
            |k: int|
                (if k == 0 {
                    ""@
                } else {
                    ","@
                }) + front[k].0 + "=\""@ + front[k].1 + "\""@,
        );
        lemma_labels_text(front);
        assert(front_pieces.push(pieces.last()) =~= pieces);
        front_pieces.lemma_flatten_push(pieces.last());
        if own.len() == 1 {
            assert(labels_text(front) =~= Seq::empty());
        }
        assert(labels_text(own) =~= labels_text(front) + pieces.last());
    }
}

/// The lines with values as a concatenation.
proof fn lemma_value_lines(
    listed: ListedMetric,
    prefix: Seq<char>,
    suffix: Seq<char>,
    labels: Seq<char>,
    count: nat,
)
    ensures
        listed.value_lines(prefix, suffix, labels, count) == Seq::new(
            count,
            |k: int| listed.value_line(prefix, suffix, labels, k) + "\n"@,
        ).flatten(),
    decreases count,
{
    let lines = Seq::new(count, |k: int| listed.value_line(prefix, suffix, labels, k) + "\n"@);
    if count > 0 {
        let front = Seq::new(
            (count - 1) as nat,
            |k: int| listed.value_line(prefix, suffix, labels, k) + "\n"@,
        );
        lemma_value_lines(listed, prefix, suffix, labels, (count - 1) as nat);
        assert(front.push(lines.last()) =~= lines);
        front.lemma_flatten_push(lines.last());
        assert(listed.value_lines(prefix, suffix, labels, count) =~= front.flatten()
            + lines.last());
    }
}

/// A line with a value of a family and its end.
pub(crate) open spec fn family_line(
    name: Seq<char>,
    suffix: Seq<char>,
    labels: Seq<char>,
    own: LabelSet,
    value: int,
) -> Seq<char> {
    name + suffix + (if labels.len() == 0 {
        "{"@
    } else {
        labels.drop_last() + ","@
    }) + Seq::new(
        own.len(),
        |l: int|
            (if l == 0 {
                ""@
            } else {
                ","@
            }) + own[l].0 + "=\""@ + own[l].1 + "\""@,
    ).flatten() + "}"@ + " "@ + crate::text::signed_decimal(value) + "\n"@
}

proof fn lemma_family_line(
    listed: ListedMetric,
    prefix: Seq<char>,
    suffix: Seq<char>,
    labels: Seq<char>,
    i: int,
)
    requires
        listed.samples[i].labels is Some,
    ensures
        listed.value_line(prefix, suffix, labels, i) + "\n"@ == family_line(
            prefix + listed.metric.full_name(),
            suffix,
            labels,
            listed.samples[i].labels->0,
            listed.samples[i].value,
        ),
{
    let own = listed.samples[i].labels->0;
    lemma_labels_text(own);
    assert(listed.value_line(prefix, suffix, labels, i) + "\n"@ =~= family_line(
        prefix + listed.metric.full_name(),
        suffix,
        labels,
        own,
        listed.samples[i].value,
    ));
}

/// The label sets of a family in the order in which they are listed.
proof fn lemma_label_sets(held: Samples, samples: Seq<Sample>) -> (label_sets: Seq<LabelSet>)
    requires
        held is Family,
        is_listing(held, samples),
    ensures
        label_sets == Seq::new(samples.len(), |k: int| samples[k].labels->0),
        label_sets.no_duplicates(),
        forall|own: LabelSet|
            label_sets.contains(own) <==> #[trigger] held->Family_0.contains_key(own),
        forall|k: int|
            0 <= k < samples.len() ==> (#[trigger] samples[k]).labels == Some(label_sets[k])
                && samples[k].value == held->Family_0[label_sets[k]],
{
    let values = held->Family_0;
    let label_sets = Seq::new(samples.len(), |k: int| samples[k].labels->0);
    assert forall|k: int| 0 <= k < samples.len() implies (#[trigger] samples[k]).labels == Some(
        label_sets[k],
    ) && samples[k].value == values[label_sets[k]] by {
        assert(values.contains_pair(label_sets[k], samples[k].value));
    }
    assert forall|i: int, j: int|
        0 <= i < label_sets.len() && 0 <= j < label_sets.len() && i != j implies label_sets[i]
        != label_sets[j] by {
        assert(samples[i].labels == Some(label_sets[i]));
        assert(samples[j].labels == Some(label_sets[j]));
        if i < j {
            assert(samples[i].labels != samples[j].labels);
        } else {
            assert(samples[j].labels != samples[i].labels);
        }
    }
    assert forall|own: LabelSet| label_sets.contains(own) <==> #[trigger] values.contains_key(
        own,
    ) by {
        if label_sets.contains(own) {
            let k = choose|k: int| 0 <= k < label_sets.len() && label_sets[k] == own;
            assert(values.contains_pair(label_sets[k], samples[k].value));
        }
        if values.contains_key(own) {
            let k = choose|k: int|
                0 <= k < samples.len() && (#[trigger] samples[k]).labels == Some(own);
            assert(label_sets[k] == own);
        }
    }
    label_sets
}

/// The values of a family as they are written: one line for each of its label sets.
pub(crate) proof fn lemma_family_lines(
    metric: MetricView,
    samples: Seq<Sample>,
    prefix: Seq<char>,
    suffix: Seq<char>,
    labels: Seq<char>,
) -> (label_sets: Seq<LabelSet>)
    requires
        metric.samples is Family,
        is_listing(metric.samples, samples),
    ensures
        label_sets.no_duplicates(),
        forall|own: LabelSet|
            label_sets.contains(own) <==> #[trigger] metric.samples->Family_0.contains_key(own),
        (ListedMetric { metric, samples }).value_lines(prefix, suffix, labels, samples.len())
            == Seq::new(
            label_sets.len(),
            |k: int|
                family_line(
                    prefix + metric.full_name(),
                    suffix,
                    labels,
                    label_sets[k],
                    metric.samples->Family_0[label_sets[k]],
                ),
        ).flatten(),
{
    let values = metric.samples->Family_0;
    let listed = ListedMetric { metric, samples };
    let label_sets = lemma_label_sets(metric.samples, samples);
    lemma_value_lines(listed, prefix, suffix, labels, samples.len());
    let lines = Seq::new(
        samples.len(),
        |k: int| listed.value_line(prefix, suffix, labels, k) + "\n"@,
    );
    let explicit = Seq::new(
        label_sets.len(),
        |k: int|
            family_line(
                prefix + metric.full_name(),
                suffix,
                labels,
                label_sets[k],
                values[label_sets[k]],
            ),
    );
    assert forall|k: int| 0 <= k < lines.len() implies #[trigger] lines[k] == explicit[k] by {
        assert(samples[k].labels == Some(label_sets[k]));
        lemma_family_line(listed, prefix, suffix, labels, k);
    }
    assert(lines =~= explicit);
    label_sets
}

/// The pieces of the text of a label set, which may be one of several.
pub(crate) proof fn lemma_label_pieces(label_sets: Seq<LabelSet>, k: int)
    ensures
        ({
            let own = label_sets[k];
            Seq::new(
                label_sets[k].len(),
                |l: int|
                    (if l == 0 {
                        ""@
                    } else {
                        ","@
                    }) + label_sets[k][l].0 + "=\""@ + label_sets[k][l].1 + "\""@,
            ) == Seq::new(
                own.len(),
                |l: int|
                    (if l == 0 {
                        ""@
                    } else {
                        ","@
                    }) + own[l].0 + "=\""@ + own[l].1 + "\""@,
            )
        }),
{
}

/// The lines of a family, each in full.
proof fn lemma_explicit_lines(
    name: Seq<char>,
    suffix: Seq<char>,
    labels: Seq<char>,
    label_sets: Seq<LabelSet>,
    values: Map<LabelSet, int>,
)
    ensures
        Seq::new(
            label_sets.len(),
            |k: int| family_line(name, suffix, labels, label_sets[k], values[label_sets[k]]),
        ) == Seq::new(
            label_sets.len(),
            |k: int|
                name + suffix + (if labels.len() == 0 {
                    "{"@
                } else {
                    labels.drop_last() + ","@
                }) + Seq::new(
                    label_sets[k].len(),
                    |l: int|
                        (if l == 0 {
                            ""@
                        } else {
                            ","@
                        }) + label_sets[k][l].0 + "=\""@ + label_sets[k][l].1 + "\""@,
                ).flatten() + "}"@ + " "@ + crate::text::signed_decimal(values[label_sets[k]])
                    + "\n"@,
        ),
{
    let lines = Seq::new(
        label_sets.len(),
        |k: int| family_line(name, suffix, labels, label_sets[k], values[label_sets[k]]),
    );
    let explicit = Seq::new(
        label_sets.len(),
        |k: int|
            name + suffix + (if labels.len() == 0 {
                "{"@
            } else {
                labels.drop_last() + ","@
            }) + Seq::new(
                label_sets[k].len(),
                |l: int|
                    (if l == 0 {
                        ""@
                    } else {
                        ","@
                    }) + label_sets[k][l].0 + "=\""@ + label_sets[k][l].1 + "\""@,
            ).flatten() + "}"@ + " "@ + crate::text::signed_decimal(values[label_sets[k]]) + "\n"@,
    );
    assert forall|k: int| 0 <= k < lines.len() implies #[trigger] lines[k] == explicit[k] by {
        lemma_label_pieces(label_sets, k);
    }
    assert(lines =~= explicit);
}

/// The lines that describe a metric, each in full.
pub(crate) proof fn lemma_head_text(metric: MetricView, prefix: Seq<char>)
    ensures
        ({
            let name = prefix + metric.full_name();
            metric.head_text(prefix) == "# HELP "@ + name + " "@ + metric.help + "\n"@ + "# TYPE "@
                + name + " "@ + metric.kind.type_text() + "\n"@ + (match metric.unit {
                Some(unit) => "# UNIT "@ + name + " "@ + unit + "\n"@,
                None => ""@,
            })
        }),
{
    reveal_strlit("");
    let name = prefix + metric.full_name();
    let end = match metric.unit {
        Some(unit) => "# UNIT "@ + name + " "@ + unit + "\n"@,
        None => ""@,
    };
    assert(end =~= metric.unit_line(prefix));
    assert(metric.head_text(prefix) =~= "# HELP "@ + name + " "@ + metric.help + "\n"@ + "# TYPE "@
        + name + " "@ + metric.kind.type_text() + "\n"@ + end);
}

/// The line with the value of a metric without labels of its own.
pub(crate) proof fn lemma_single_line(
    metric: MetricView,
    samples: Seq<Sample>,
    prefix: Seq<char>,
    suffix: Seq<char>,
    labels: Seq<char>,
)
    requires
        metric.samples is Single,
        is_listing(metric.samples, samples),
    ensures
        ({
            let name = prefix + metric.full_name();
            let head = metric.head_text(prefix);
            head + (ListedMetric { metric, samples }).value_lines(
                prefix,
                suffix,
                labels,
                samples.len(),
            ) == head + name + suffix + labels + " "@ + crate::text::signed_decimal(
                metric.samples->Single_0,
            ) + "\n"@
        }),
{
    reveal_with_fuel(ListedMetric::value_lines, 2);
    let name = prefix + metric.full_name();
    let head = metric.head_text(prefix);
    let listed = ListedMetric { metric, samples };
    assert(head + listed.value_lines(prefix, suffix, labels, samples.len()) =~= head + name + suffix
        + labels + " "@ + crate::text::signed_decimal(metric.samples->Single_0) + "\n"@);
}

/// A metric is written as a line with its help text, a line with its type, and a line with its unit
/// if it has one, followed by a line with its value, or one for each label set of a family with
/// the value that it has under these labels. Each line names the metric in full.
pub proof fn lemma_metric_text(
    text: Seq<char>,
    metric: MetricView,
    prefix: Seq<char>,
    labels: Seq<char>,
)
    requires
        is_text_of(text, metric, prefix, labels),
    ensures
        ({
            let name = prefix + (match metric.unit {
                Some(unit) => metric.name + "_"@ + unit,
                None => metric.name,
            });
            let head = "# HELP "@ + name + " "@ + metric.help + "\n"@ + "# TYPE "@ + name + " "@ + (
            if metric.kind is Counter {
                "counter"@
            } else {
                "gauge"@
            }) + "\n"@ + (match metric.unit {
                Some(unit) => "# UNIT "@ + name + " "@ + unit + "\n"@,
                None => ""@,
            });
            let suffix = if metric.kind is Counter {
                "_total"@
            } else {
                ""@
            };
            &&& metric.samples matches Samples::Single(value) ==> text == head + name + suffix
                + labels + " "@ + crate::text::signed_decimal(value) + "\n"@
            &&& metric.samples matches Samples::Family(values) ==> exists|
                label_sets: Seq<LabelSet>,
            |
                #[trigger] label_sets.no_duplicates() && (forall|own: LabelSet|
                    label_sets.contains(own) <==> #[trigger] values.contains_key(own)) && text
                    == head + Seq::new(
                    label_sets.len(),
                    |k: int|
                        name + suffix + (if labels.len() == 0 {
                            "{"@
                        } else {
                            labels.drop_last() + ","@
                        }) + Seq::new(
                            label_sets[k].len(),
                            |l: int|
                                (if l == 0 {
                                    ""@
                                } else {
                                    ","@
                                }) + label_sets[k][l].0 + "=\""@ + label_sets[k][l].1 + "\""@,
                        ).flatten() + "}"@ + " "@ + crate::text::signed_decimal(
                            values[label_sets[k]],
                        ) + "\n"@,
                ).flatten()
        }),
{
    let samples = choose|samples: Seq<Sample>| #[trigger]
        is_listing(metric.samples, samples) && text == (ListedMetric {
            metric,
            samples,
        }).open_metrics_text(prefix, labels);
    let suffix = metric.kind.suffix();
    let name = prefix + metric.full_name();
    lemma_head_text(metric, prefix);
    if metric.samples is Family {
        let label_sets = lemma_family_lines(metric, samples, prefix, suffix, labels);
        lemma_explicit_lines(name, suffix, labels, label_sets, metric.samples->Family_0);
        assert(label_sets.no_duplicates());
    } else {
        lemma_single_line(metric, samples, prefix, suffix, labels);
    }
}

/// The texts of listed metrics, one by one.
spec fn texts_of(
    prefix: Seq<char>,
    labels: Seq<char>,
    metrics: Seq<ListedMetric>,
) -> Seq<Seq<char>> {
    metrics.map_values(|m: ListedMetric| m.open_metrics_text(prefix, labels))
}

proof fn lemma_all_text(prefix: Seq<char>, labels: Seq<char>, metrics: Seq<ListedMetric>)
    ensures
        all_text(prefix, labels, metrics) == texts_of(prefix, labels, metrics).flatten(),
    decreases metrics.len(),
{
    let texts = texts_of(prefix, labels, metrics);
    if metrics.len() > 0 {
        let front = texts_of(prefix, labels, metrics.drop_last());
        lemma_all_text(prefix, labels, metrics.drop_last());
        assert(front.push(texts.last()) =~= texts);
        front.lemma_flatten_push(texts.last());
    }
}

/// The texts of metrics with full stops at the ends of their help texts, one by one.
proof fn lemma_dotted_texts(
    prefix: Seq<char>,
    labels: Seq<char>,
    metrics: Seq<MetricView>,
    listed: Seq<ListedMetric>,
) -> (texts: Seq<Seq<char>>)
    requires
        lists(metrics, listed),
    ensures
        texts == texts_of(prefix, labels, all_dotted(listed)),
        texts.len() == metrics.len(),
        forall|i: int|
            0 <= i < texts.len() ==> is_text_of(
                #[trigger] texts[i],
                MetricView { help: metrics[i].help + "."@, ..metrics[i] },
                prefix,
                labels,
            ),
        all_text(prefix, labels, all_dotted(listed)) == texts.flatten(),
{
    let texts = texts_of(prefix, labels, all_dotted(listed));
    lemma_all_text(prefix, labels, all_dotted(listed));
    assert forall|i: int| 0 <= i < texts.len() implies is_text_of(
        #[trigger] texts[i],
        MetricView { help: metrics[i].help + "."@, ..metrics[i] },
        prefix,
        labels,
    ) by {
        let samples = listed[i].samples;
        assert(listed[i].metric == metrics[i]);
        assert(is_listing(metrics[i].dotted().samples, samples));
        assert(texts[i] == (ListedMetric { metric: metrics[i].dotted(), samples }).open_metrics_text(
            prefix,
            labels,
        ));
    }
    texts
}

/// The text that the writer of an encoder has accepted so far.
pub uninterp spec fn written(encoder: DescriptorEncoder<'_>) -> Seq<char>;

/// What an encoder puts in front of the names of metrics: the prefix of the registry and an
/// underscore, or nothing if the registry has no prefix.
pub uninterp spec fn name_prefix(encoder: DescriptorEncoder<'_>) -> Seq<char>;

/// What an encoder puts behind the name of a metric in front of its value: the labels of the
/// registry in curly brackets, or nothing if the registry has no labels.
pub uninterp spec fn const_labels(encoder: DescriptorEncoder<'_>) -> Seq<char>;

/// Whether the writer of an encoder accepts all text that it is handed, as a `String` does.
pub uninterp spec fn accepts_all(encoder: DescriptorEncoder<'_>) -> bool;

/// Family of counters of `prometheus_client`. The type of the family itself cannot stand in
/// a contract, as a function pointer is one of its parameters.
#[verifier::external_body]
pub struct CounterFamily {
    inner: Family<Vec<(String, String)>, Counter>,
}

/// Family of gauges of `prometheus_client`, held for the same reason as a [`CounterFamily`].
#[verifier::external_body]
pub struct GaugeFamily {
    inner: Family<Vec<(String, String)>, Gauge>,
}

/// The values in a family of counters by their labels.
pub uninterp spec fn counters(family: CounterFamily) -> Map<LabelSet, int>;

/// The values in a family of gauges by their labels.
pub uninterp spec fn gauges(family: GaugeFamily) -> Map<LabelSet, int>;

/// The values of a family that holds nothing.
spec fn no_values() -> Map<LabelSet, int> {
    Map::empty()
}

/// Creates a family of counters.
///
/// Calls `Family::default`, whose result holds nothing.
#[verifier::external_body]
fn empty_counters() -> (family: CounterFamily)
    ensures
        counters(family) == no_values(),
{
    CounterFamily { inner: Family::default() }
}

/// Creates a family of gauges.
///
/// Calls `Family::default`, whose result holds nothing.
#[verifier::external_body]
fn empty_gauges() -> (family: GaugeFamily)
    ensures
        gauges(family) == no_values(),
{
    GaugeFamily { inner: Family::default() }
}

/// The value of a counter as a mathematical integer.
spec fn number(value: u64) -> int {
    value as int
}

/// Sets a counter in a family.
///
/// Calls `Family::get_or_create`, which returns the counter with the given labels and adds it if it
/// is not there, and stores the value in the atomic that `Counter::inner` returns. Label sets are
/// the same if they hold the same labels in the same order. The other counters stay as they are.
#[verifier::external_body]
fn set_counter(family: &mut CounterFamily, labels: &Vec<(String, String)>, value: u64)
    ensures
        counters(*final(family)) == counters(*old(family)).insert(
            crate::metrics::label_set(labels@),
            number(value),
        ),
{
    let counter = family.inner.get_or_create(labels);
    counter.inner().store(value, std::sync::atomic::Ordering::Relaxed);
}

/// Sets a gauge in a family.
///
/// Calls `Family::get_or_create`, which returns the gauge with the given labels and adds it if it
/// is not there, and `Gauge::set`, which stores the value. Label sets are the same if they hold
/// the same labels in the same order. The other gauges stay as they are.
#[verifier::external_body]
fn set_gauge(family: &mut GaugeFamily, labels: &Vec<(String, String)>, value: i64)
    ensures
        gauges(*final(family)) == gauges(*old(family)).insert(
            crate::metrics::label_set(labels@),
            value as int,
        ),
{
    family.inner.get_or_create(labels).set(value);
}

/// A value in the form in which `prometheus_client` encodes it.
enum Instrument {
    Counter(u64),
    Gauge(i64),
    CounterFamily(CounterFamily),
    GaugeFamily(GaugeFamily),
}

impl Instrument {
    /// The type of the metric.
    spec fn kind(self) -> MetricKind {
        match self {
            Instrument::Counter(_) | Instrument::CounterFamily(_) => MetricKind::Counter,
            Instrument::Gauge(_) | Instrument::GaugeFamily(_) => MetricKind::Gauge,
        }
    }

    /// The values.
    spec fn samples(self) -> Samples {
        match self {
            Instrument::Counter(value) => Samples::Single(value as int),
            Instrument::Gauge(value) => Samples::Single(value as int),
            Instrument::CounterFamily(family) => Samples::Family(counters(family)),
            Instrument::GaugeFamily(family) => Samples::Family(gauges(family)),
        }
    }

    /// The view of a metric with these values that is otherwise given by its parts.
    spec fn metric_view(
        self,
        name: Seq<char>,
        help: Seq<char>,
        unit: Option<Seq<char>>,
    ) -> MetricView {
        MetricView { name, help, unit, kind: self.kind(), samples: self.samples() }
    }
}

/// Fills a family of counters.
fn counter_family(values: &Vec<Labelled<u64>>) -> (family: CounterFamily)
    ensures
        counters(family) == crate::metrics::counter_values(values@),
        forall|i: int|
            0 <= i < values@.len() ==> counters(family).contains_key(
                crate::metrics::label_set((#[trigger] values@[i]).labels@),
            ),
        forall|labels: LabelSet| #[trigger]
            counters(family).contains_key(labels) ==> exists|i: int|
                0 <= i < values@.len() && crate::metrics::label_set(
                    (#[trigger] values@[i]).labels@,
                ) == labels,
        forall|i: int|
            0 <= i < values@.len() && (forall|j: int|
                i < j < values@.len() ==> crate::metrics::label_set((#[trigger] values@[j]).labels@)
                    != crate::metrics::label_set(values@[i].labels@)) ==> counters(
                family,
            )[crate::metrics::label_set((#[trigger] values@[i]).labels@)] == values@[i].value,
{
    proof {
        crate::metrics::lemma_counter_values(values@);
    }
    let mut family = empty_counters();
    let mut i: usize = 0;
    assert(values@.take(0) =~= Seq::empty());
    while i < values.len()
        invariant
            0 <= i <= values@.len(),
            counters(family) == crate::metrics::counter_values(values@.take(i as int)),
        decreases values@.len() - i,
    {
        set_counter(&mut family, &values[i].labels, values[i].value);
        proof {
            let next = values@.take(i + 1);
            assert(next.drop_last() =~= values@.take(i as int));
            assert(next.last() == values@[i as int]);
        }
        i += 1;
    }
    assert(values@.take(values@.len() as int) =~= values@);
    family
}

/// Fills a family of gauges.
fn gauge_family(values: &Vec<Labelled<i64>>) -> (family: GaugeFamily)
    ensures
        gauges(family) == crate::metrics::gauge_values(values@),
        forall|i: int|
            0 <= i < values@.len() ==> gauges(family).contains_key(
                crate::metrics::label_set((#[trigger] values@[i]).labels@),
            ),
        forall|labels: LabelSet| #[trigger]
            gauges(family).contains_key(labels) ==> exists|i: int|
                0 <= i < values@.len() && crate::metrics::label_set(
                    (#[trigger] values@[i]).labels@,
                ) == labels,
        forall|i: int|
            0 <= i < values@.len() && (forall|j: int|
                i < j < values@.len() ==> crate::metrics::label_set((#[trigger] values@[j]).labels@)
                    != crate::metrics::label_set(values@[i].labels@)) ==> gauges(
                family,
            )[crate::metrics::label_set((#[trigger] values@[i]).labels@)] == values@[i].value,
{
    proof {
        crate::metrics::lemma_gauge_values(values@);
    }
    let mut family = empty_gauges();
    let mut i: usize = 0;
    assert(values@.take(0) =~= Seq::empty());
    while i < values.len()
        invariant
            0 <= i <= values@.len(),
            gauges(family) == crate::metrics::gauge_values(values@.take(i as int)),
        decreases values@.len() - i,
    {
        set_gauge(&mut family, &values[i].labels, values[i].value);
        proof {
            let next = values@.take(i + 1);
            assert(next.drop_last() =~= values@.take(i as int));
            assert(next.last() == values@[i as int]);
        }
        i += 1;
    }
    assert(values@.take(values@.len() as int) =~= values@);
    family
}

/// Brings a value in the form in which it can be encoded.
fn instrument(value: &MetricValue) -> (instrument: Instrument)
    ensures
        instrument.kind() == value.kind(),
        instrument.samples() == value.samples(),
{
    let instrument = match value {
        MetricValue::Counter(value) => Instrument::Counter(*value),
        MetricValue::Gauge(value) => Instrument::Gauge(*value),
        MetricValue::CounterFamily(values) => Instrument::CounterFamily(counter_family(values)),
        MetricValue::GaugeFamily(values) => Instrument::GaugeFamily(gauge_family(values)),
    };
    proof {
        lemma_instruments(instrument, None);
    }
    instrument
}

/// What is handed over for encoding has the type and the values that it holds: a number counts as
/// itself, and a family as what it contains.
proof fn lemma_instruments(value: Instrument, unit: Option<&str>)
    ensures
        value matches Instrument::Counter(v) ==> value.kind() is Counter && value.samples()
            == Samples::Single(v as int),
        value matches Instrument::Gauge(v) ==> value.kind() is Gauge && value.samples()
            == Samples::Single(v as int),
        value matches Instrument::CounterFamily(family) ==> value.kind() is Counter
            && value.samples() == Samples::Family(counters(family)),
        value matches Instrument::GaugeFamily(family) ==> value.kind() is Gauge && value.samples()
            == Samples::Family(gauges(family)),
        forall|name: Seq<char>, help: Seq<char>, unit: Option<Seq<char>>|
            {
                let view = #[trigger] value.metric_view(name, help, unit);
                &&& view.name == name && view.help == help && view.unit == unit
                &&& view.kind == value.kind() && view.samples == value.samples()
            },
        unit is None <==> text_of(unit) is None,
        unit matches Some(name) ==> text_of(unit) == Some(name@),
        forall|v: u64| #[trigger] number(v) == v,
        forall|labels: LabelSet| !(#[trigger] no_values().contains_key(labels)),
{
}

/// The view of an optional text.
spec fn text_of(text: Option<&str>) -> Option<Seq<char>> {
    match text {
        Some(text) => Some(text@),
        None => None,
    }
}

/// Whether `text` is a text of a metric, its values listed in some order. `prefix` and `labels` are
/// those of the encoder.
pub open spec fn is_text_of(
    text: Seq<char>,
    metric: MetricView,
    prefix: Seq<char>,
    labels: Seq<char>,
) -> bool {
    exists|samples: Seq<Sample>| #[trigger]
        is_listing(metric.samples, samples) && text == (ListedMetric {
            metric,
            samples,
        }).open_metrics_text(prefix, labels)
}

/// Encodes a metric.
///
/// Calls `DescriptorEncoder::encode_descriptor` and hands the encoder that it returns to
/// `EncodeMetric::encode` of a `ConstCounter`, a `ConstGauge` or a `Family`. All they do is to hand
/// pieces of text to the writer of the encoder. If no piece is refused, these are the help line,
/// the type line, the line with the unit if there is one, and the lines with the values: one for
/// a constant, and one for each label set of a family, in the order in which a hash map is walked.
/// The help text and the labels are written as they are. The prefix, the labels and the writer of
/// the encoder stay the same.
///
/// The unit goes by its name alone: a unit is written by what `Unit::as_str` returns, which for
/// `Unit::Other` is the text that it holds.
///
/// If the writer refuses a piece, the error is passed on, and no further piece is handed over: what
/// was accepted is a beginning of the text. There is no other way to fail.
#[verifier::external_body]
fn encode_metric(
    encoder: &mut DescriptorEncoder<'_>,
    name: &str,
    help: &str,
    unit: Option<&str>,
    value: Instrument,
) -> (result: Result<(), std::fmt::Error>)
    ensures
        name_prefix(*final(encoder)) == name_prefix(*old(encoder)),
        const_labels(*final(encoder)) == const_labels(*old(encoder)),
        accepts_all(*final(encoder)) == accepts_all(*old(encoder)),
        accepts_all(*old(encoder)) ==> result is Ok,
        written(*old(encoder)).is_prefix_of(written(*final(encoder))),
        result is Err ==> exists|text: Seq<char>| #[trigger]
            is_text_of(
                text,
                value.metric_view(name@, help@, text_of(unit)),
                name_prefix(*old(encoder)),
                const_labels(*old(encoder)),
            ) && written(*final(encoder)).is_prefix_of(written(*old(encoder)) + text),
        result is Ok ==> exists|text: Seq<char>| #[trigger]
            is_text_of(
                text,
                value.metric_view(name@, help@, text_of(unit)),
                name_prefix(*old(encoder)),
                const_labels(*old(encoder)),
            ) && written(*final(encoder)) == written(*old(encoder)) + text,
{
    let unit = match unit {
        Some(unit) => Some(Unit::Other(unit.to_string())),
        None => None,
    };
    let kind = match value {
        Instrument::Counter(_) | Instrument::CounterFamily(_) => MetricType::Counter,
        Instrument::Gauge(_) | Instrument::GaugeFamily(_) => MetricType::Gauge,
    };
    let encoder = encoder.encode_descriptor(name, help, unit.as_ref(), kind)?;
    match value {
        Instrument::Counter(value) => ConstCounter::new(value).encode(encoder),
        Instrument::Gauge(value) => ConstGauge::new(value).encode(encoder),
        Instrument::CounterFamily(family) => family.inner.encode(encoder),
        Instrument::GaugeFamily(family) => family.inner.encode(encoder),
    }
}

/// The text that the writer of an encoder has accepted once `metrics` are encoded too.
/// Each help text is written with a full stop at the end.
pub open spec fn text_with(
    encoder: DescriptorEncoder<'_>,
    metrics: Seq<ListedMetric>,
) -> Seq<char> {
    written(encoder) + all_text(name_prefix(encoder), const_labels(encoder), all_dotted(metrics))
}

/// Whether `after` is what becomes of the encoder `before` when `metrics` are encoded with
/// the given result. On success all of them are written. On failure one of them is refused: all in
/// front of it are written, of itself no more than a beginning, and nothing of those behind it.
/// If the writer accepts everything, this is a success.
pub open spec fn is_encoding(
    before: DescriptorEncoder<'_>,
    after: DescriptorEncoder<'_>,
    metrics: Seq<MetricView>,
    result: Result<(), std::fmt::Error>,
) -> bool {
    &&& name_prefix(after) == name_prefix(before)
    &&& const_labels(after) == const_labels(before)
    &&& accepts_all(after) == accepts_all(before)
    &&& metrics.len() == 0 || accepts_all(before) ==> result is Ok
    &&& result is Ok ==> exists|listed: Seq<ListedMetric>| #[trigger]
        lists(metrics, listed) && written(after) == text_with(before, listed)
    &&& result is Err ==> exists|refused: int, listed: Seq<ListedMetric>|
        0 <= refused < metrics.len() && #[trigger] lists(metrics.take(refused + 1), listed)
            && text_with(before, listed.drop_last()).is_prefix_of(written(after)) && written(
            after,
        ).is_prefix_of(text_with(before, listed))
}

/// Metrics that a collector encodes read as if they had been registered: a registry adds a full
/// stop to the help text of a metric, and so does the collector.
pub proof fn lemma_collected_like_registered(
    encoder: DescriptorEncoder<'_>,
    metrics: Seq<ListedMetric>,
)
    requires
        written(encoder) == Seq::<char>::empty(),
        name_prefix(encoder) == Seq::<char>::empty(),
        const_labels(encoder) == Seq::<char>::empty(),
    ensures
        text_with(encoder, metrics) + "# EOF\n"@ == complete_text(metrics),
{
    assert(text_with(encoder, metrics) =~= all_text(
        Seq::empty(),
        Seq::empty(),
        all_dotted(metrics),
    ));
}

/// Metrics that are encoded with success are written one after the other, all of them, each with
/// a full stop at the end of its help text. Success is owed if there is nothing to be encoded, or
/// if the writer accepts everything. If the encoding fails, this is at one of the metrics: those in
/// front of it are written, of itself no more than a beginning, and nothing of those behind it.
pub proof fn lemma_encoded_text(
    before: DescriptorEncoder<'_>,
    after: DescriptorEncoder<'_>,
    metrics: Seq<MetricView>,
    result: Result<(), std::fmt::Error>,
)
    requires
        is_encoding(before, after, metrics, result),
    ensures
        name_prefix(after) == name_prefix(before),
        const_labels(after) == const_labels(before),
        accepts_all(after) == accepts_all(before),
        metrics.len() == 0 ==> result is Ok && written(after) == written(before),
        accepts_all(before) ==> result is Ok,
        result is Ok ==> exists|texts: Seq<Seq<char>>|
            texts.len() == metrics.len() && (forall|i: int|
                0 <= i < texts.len() ==> is_text_of(
                    #[trigger] texts[i],
                    MetricView { help: metrics[i].help + "."@, ..metrics[i] },
                    name_prefix(before),
                    const_labels(before),
                )) && written(after) == written(before) + #[trigger] texts.flatten(),
        result is Err ==> exists|texts: Seq<Seq<char>>|
            0 < texts.len() <= metrics.len() && (forall|i: int|
                0 <= i < texts.len() ==> is_text_of(
                    #[trigger] texts[i],
                    MetricView { help: metrics[i].help + "."@, ..metrics[i] },
                    name_prefix(before),
                    const_labels(before),
                )) && (written(before) + texts.drop_last().flatten()).is_prefix_of(written(after))
                && written(after).is_prefix_of(written(before) + #[trigger] texts.flatten()),
{
    let prefix = name_prefix(before);
    let labels = const_labels(before);
    if result is Ok {
        let listed = choose|listed: Seq<ListedMetric>| #[trigger]
            lists(metrics, listed) && written(after) == text_with(before, listed);
        let texts = lemma_dotted_texts(prefix, labels, metrics, listed);
        assert(written(after) == written(before) + texts.flatten());
        if metrics.len() == 0 {
            assert(written(before) + texts.flatten() =~= written(before));
        }
    } else {
        let (refused, listed) = choose|refused: int, listed: Seq<ListedMetric>|
            0 <= refused < metrics.len() && #[trigger] lists(metrics.take(refused + 1), listed)
                && text_with(before, listed.drop_last()).is_prefix_of(written(after)) && written(
                after,
            ).is_prefix_of(text_with(before, listed));
        let texts = lemma_dotted_texts(prefix, labels, metrics.take(refused + 1), listed);
        lemma_all_text(prefix, labels, all_dotted(listed.drop_last()));
        assert(texts_of(prefix, labels, all_dotted(listed.drop_last())) =~= texts.drop_last());
        assert forall|i: int| 0 <= i < texts.len() implies is_text_of(
            #[trigger] texts[i],
            MetricView { help: metrics[i].help + "."@, ..metrics[i] },
            prefix,
            labels,
        ) by {
            assert(metrics.take(refused + 1)[i] == metrics[i]);
        }
        assert(written(after).is_prefix_of(written(before) + texts.flatten()));
    }
}

/// One more listed metric.
proof fn lemma_listed_next(
    metrics: Seq<MetricView>,
    count: int,
    listed: Seq<ListedMetric>,
    samples: Seq<Sample>,
)
    requires
        0 <= count < metrics.len(),
        lists(metrics.take(count), listed),
        is_listing(metrics[count].samples, samples),
    ensures
        lists(
            metrics.take(count + 1),
            listed.push(ListedMetric { metric: metrics[count], samples }),
        ),
{
    let next = listed.push(ListedMetric { metric: metrics[count], samples });
    let taken = metrics.take(count + 1);
    assert forall|i: int| 0 <= i < next.len() implies (#[trigger] next[i]).metric == taken[i]
        && is_listing(taken[i].samples, next[i].samples) by {
        if i < count {
            assert(next[i] == listed[i]);
            assert(metrics.take(count)[i] == metrics[i]);
        }
    }
}

/// The text behind one more metric.
proof fn lemma_text_with_next(
    encoder: DescriptorEncoder<'_>,
    listed: Seq<ListedMetric>,
    next: ListedMetric,
)
    ensures
        text_with(encoder, listed.push(next)) == text_with(encoder, listed)
            + next.dotted().open_metrics_text(name_prefix(encoder), const_labels(encoder)),
{
    let dotted = all_dotted(listed.push(next));
    assert(dotted.drop_last() =~= all_dotted(listed));
    assert(dotted.last() == next.dotted());
    assert(text_with(encoder, listed.push(next)) =~= text_with(encoder, listed)
        + next.dotted().open_metrics_text(name_prefix(encoder), const_labels(encoder)));
}

/// Encodes metrics one after the other, with a full stop at the end of each help text. Stops at
/// the first one that the encoder refuses.
pub fn encode_all(metrics: &Vec<Metric>, encoder: &mut DescriptorEncoder<'_>) -> (result: Result<
    (),
    std::fmt::Error,
>)
    ensures
        is_encoding(*old(encoder), *final(encoder), crate::metrics::views(metrics@), result),
{
    let ghost start = *encoder;
    let ghost all = crate::metrics::views(metrics@);
    let ghost mut listed = Seq::<ListedMetric>::empty();
    let mut i: usize = 0;
    assert(all_dotted(listed) =~= Seq::empty());
    assert(text_with(start, listed) =~= written(start));
    assert(lists(all.take(0), listed));
    while i < metrics.len()
        invariant
            0 <= i <= metrics@.len(),
            all == crate::metrics::views(metrics@),
            *old(encoder) == start,
            name_prefix(*encoder) == name_prefix(start),
            const_labels(*encoder) == const_labels(start),
            accepts_all(*encoder) == accepts_all(start),
            listed.len() == i,
            lists(all.take(i as int), listed),
            written(*encoder) == text_with(start, listed),
        decreases metrics@.len() - i,
    {
        let descriptor = metrics[i].descriptor;
        let mut help = descriptor.help.to_owned();
        help.append(".");
        let unit: Option<&str> = match descriptor.unit {
            Some(unit) => Some(unit.as_str()),
            None => None,
        };
        let value = instrument(&metrics[i].value);
        let ghost before = *encoder;
        let ghost metric = all[i as int];
        let ghost dotted = value.metric_view(descriptor.name@, help@, text_of(unit));
        assert(dotted =~= metric.dotted());
        let result = encode_metric(encoder, descriptor.name, help.as_str(), unit, value);
        proof {
            let text = choose|text: Seq<char>| #[trigger]
                is_text_of(text, dotted, name_prefix(before), const_labels(before)) && (
                result is Ok ==> written(*encoder) == written(before) + text) && (result is Err
                    ==> written(*encoder).is_prefix_of(written(before) + text));
            let samples = choose|samples: Seq<Sample>| #[trigger]
                is_listing(dotted.samples, samples) && text == (ListedMetric {
                    metric: dotted,
                    samples,
                }).open_metrics_text(name_prefix(before), const_labels(before));
            let next = ListedMetric { metric, samples };
            assert(next.dotted() == ListedMetric { metric: dotted, samples });
            lemma_listed_next(all, i as int, listed, samples);
            lemma_text_with_next(start, listed, next);
            assert(listed.push(next).drop_last() =~= listed);
            listed = listed.push(next);
        }
        match result {
            Ok(()) => {},
            Err(err) => {
                return Err(err);
            },
        }
        i += 1;
    }
    assert(all.take(all.len() as int) =~= all);
    Ok(())
}

/// The metrics that are registered in a registry itself, in the order in which they came.
pub uninterp spec fn registered(registry: TextRegistry) -> Seq<MetricView>;

/// Whether a registry has no prefix, no labels, no collectors and no registries below it, and all
/// metrics that are registered in it are integer constants or families of integers.
pub uninterp spec fn is_plain(registry: TextRegistry) -> bool;

/// Creates a registry.
///
/// Calls `Registry::default`, whose result holds nothing.
#[verifier::external_body]
fn empty_registry() -> (registry: TextRegistry)
    ensures
        is_plain(registry),
        registered(registry) == Seq::<MetricView>::empty(),
{
    TextRegistry::default()
}

/// Registers a metric that has no unit.
///
/// Calls `Registry::register`, which adds the metric behind those that are there, and a full stop
/// to its help text.
#[verifier::external_body]
fn register(registry: &mut TextRegistry, name: &str, help: &str, value: Instrument)
    ensures
        is_plain(*final(registry)) == is_plain(*old(registry)),
        registered(*final(registry)) == registered(*old(registry)).push(
            value.metric_view(name@, help@, None).dotted(),
        ),
{
    match value {
        Instrument::Counter(value) => registry.register(name, help, ConstCounter::new(value)),
        Instrument::Gauge(value) => registry.register(name, help, ConstGauge::new(value)),
        Instrument::CounterFamily(family) => registry.register(name, help, family.inner),
        Instrument::GaugeFamily(family) => registry.register(name, help, family.inner),
    }
}

/// Registers a metric that has a unit.
///
/// Calls `Registry::register_with_unit`, which adds the metric behind those that are there, and
/// a full stop to its help text. The unit goes by its name alone, as in [`encode_metric`].
#[verifier::external_body]
fn register_with_unit(
    registry: &mut TextRegistry,
    name: &str,
    help: &str,
    unit: &str,
    value: Instrument,
)
    ensures
        is_plain(*final(registry)) == is_plain(*old(registry)),
        registered(*final(registry)) == registered(*old(registry)).push(
            value.metric_view(name@, help@, Some(unit@)).dotted(),
        ),
{
    let unit = Unit::Other(unit.to_string());
    match value {
        Instrument::Counter(value) => {
            registry.register_with_unit(name, help, unit, ConstCounter::new(value))
        },
        Instrument::Gauge(value) => {
            registry.register_with_unit(name, help, unit, ConstGauge::new(value))
        },
        Instrument::CounterFamily(family) => {
            registry.register_with_unit(name, help, unit, family.inner)
        },
        Instrument::GaugeFamily(family) => {
            registry.register_with_unit(name, help, unit, family.inner)
        },
    }
}

/// Writes out a registry.
///
/// Calls `prometheus_client::encoding::text::encode` on an empty string. It writes the metrics of
/// the registry in the OpenMetrics text format, in the order in which they were registered, and
/// behind them the end marker. The values of a family come in the order in which a hash map is
/// walked. It fails only if writing fails, and writing to a string never does.
#[verifier::external_body]
fn registry_text(registry: &TextRegistry) -> (text: Result<String, std::fmt::Error>)
    requires
        is_plain(*registry),
    ensures
        text is Ok,
        text matches Ok(t) ==> exists|listed: Seq<ListedMetric>| #[trigger]
            lists(registered(*registry), listed) && t@ == all_text(
                Seq::empty(),
                Seq::empty(),
                listed,
            ) + "# EOF\n"@,
{
    let mut buffer = String::new();
    prometheus_client::encoding::text::encode(&mut buffer, registry)?;
    Ok(buffer)
}

/// Whether `text` is the complete OpenMetrics exposition of metrics.
pub open spec fn is_complete_text(metrics: Seq<MetricView>, text: Seq<char>) -> bool {
    exists|listed: Seq<ListedMetric>| #[trigger]
        lists(metrics, listed) && text == complete_text(listed)
}

/// A complete exposition consists of the texts of all metrics, one after the other, each with a full
/// stop at the end of its help text, and of the end marker.
pub proof fn lemma_complete_text(metrics: Seq<MetricView>, text: Seq<char>)
    requires
        is_complete_text(metrics, text),
    ensures
        exists|texts: Seq<Seq<char>>|
            texts.len() == metrics.len() && (forall|i: int|
                0 <= i < texts.len() ==> is_text_of(
                    #[trigger] texts[i],
                    MetricView { help: metrics[i].help + "."@, ..metrics[i] },
                    Seq::empty(),
                    Seq::empty(),
                )) && text == #[trigger] texts.flatten() + "# EOF\n"@,
{
    let listed = choose|listed: Seq<ListedMetric>| #[trigger]
        lists(metrics, listed) && text == complete_text(listed);
    let texts = lemma_dotted_texts(Seq::empty(), Seq::empty(), metrics, listed);
    assert(text == texts.flatten() + "# EOF\n"@);
}

/// Full stops at the ends of help texts change nothing about values.
proof fn lemma_undotted(metrics: Seq<MetricView>, listed: Seq<ListedMetric>) -> (undotted: Seq<
    ListedMetric,
>)
    requires
        lists(metrics.map_values(|m: MetricView| m.dotted()), listed),
    ensures
        lists(metrics, undotted),
        all_dotted(undotted) == listed,
{
    let dotted = metrics.map_values(|m: MetricView| m.dotted());
    let undotted = Seq::new(
        metrics.len(),
        |i: int| ListedMetric { metric: metrics[i], samples: listed[i].samples },
    );
    assert forall|i: int| 0 <= i < undotted.len() implies (#[trigger] undotted[i]).metric
        == metrics[i] && is_listing(metrics[i].samples, undotted[i].samples) by {
        assert(listed[i].metric == dotted[i]);
    }
    assert forall|i: int| 0 <= i < listed.len() implies #[trigger] all_dotted(undotted)[i]
        == listed[i] by {
        assert(listed[i].metric == dotted[i]);
    }
    assert(all_dotted(undotted) =~= listed);
    undotted
}

/// Writes out metrics in the OpenMetrics text format.
pub fn open_metrics_exposition(metrics: &Vec<Metric>) -> (text: Result<String, std::fmt::Error>)
    ensures
        text matches Ok(t) && is_complete_text(crate::metrics::views(metrics@), t@),
{
    let ghost all = crate::metrics::views(metrics@);
    let ghost dotted = all.map_values(|m: MetricView| m.dotted());
    let mut registry = empty_registry();
    let mut i: usize = 0;
    assert(dotted.take(0) =~= Seq::empty());
    while i < metrics.len()
        invariant
            0 <= i <= metrics@.len(),
            all == crate::metrics::views(metrics@),
            dotted == all.map_values(|m: MetricView| m.dotted()),
            is_plain(registry),
            registered(registry) == dotted.take(i as int),
        decreases metrics@.len() - i,
    {
        let descriptor = metrics[i].descriptor;
        let value = instrument(&metrics[i].value);
        proof {
            let view = value.metric_view(
                descriptor.name@,
                descriptor.help@,
                crate::metrics::unit_text(descriptor.unit),
            );
            assert(all[i as int] =~= view);
            assert(dotted.take(i + 1) =~= dotted.take(i as int).push(view.dotted()));
        }
        match descriptor.unit {
            Some(unit) => {
                register_with_unit(
                    &mut registry,
                    descriptor.name,
                    descriptor.help,
                    unit.as_str(),
                    value,
                );
            },
            None => {
                register(&mut registry, descriptor.name, descriptor.help, value);
            },
        }
        i += 1;
    }
    assert(dotted.take(dotted.len() as int) =~= dotted);
    let text = registry_text(&registry);
    proof {
        let written = text->Ok_0@;
        let listed = choose|listed: Seq<ListedMetric>| #[trigger]
            lists(dotted, listed) && written == all_text(Seq::empty(), Seq::empty(), listed)
                + "# EOF\n"@;
        let undotted = lemma_undotted(all, listed);
        assert(written == complete_text(undotted));
    }
    text
}

} // verus!
