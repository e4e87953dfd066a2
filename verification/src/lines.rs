//! Exported text as a sequence of lines.
use vstd::prelude::*;
use crate::exposition::ListedMetric;
use crate::format::Format;

verus! {

/// The text that consists of the given lines.
pub open spec fn joined(lines: Seq<Seq<char>>) -> Seq<char>
    decreases lines.len(),
{
    if lines.len() == 0 {
        Seq::empty()
    } else {
        joined(lines.drop_last()) + lines.last() + "\n"@
    }
}

/// The lines that describe a metric.
pub open spec fn head_lines(listed: ListedMetric) -> Seq<Seq<char>> {
    let metric = listed.metric;
    let head = seq![metric.help_line(Seq::empty()), metric.type_line(Seq::empty())];
    match metric.unit {
        Some(unit) => head.push("# UNIT "@ + metric.full_name() + " "@ + unit),
        None => head,
    }
}

/// The lines of a metric. `suffix` follows the name of the metric in front of each value.
pub open spec fn metric_lines(listed: ListedMetric, suffix: Seq<char>) -> Seq<Seq<char>> {
    head_lines(listed) + Seq::new(
        listed.samples.len(),
        |i: int| listed.value_line(Seq::empty(), suffix, Seq::empty(), i),
    )
}

/// The lines of several metrics, one after the other. The value of a counter is stated under its
/// name alone if the lines are `for_prometheus`, and with a suffix otherwise.
pub open spec fn all_lines(metrics: Seq<ListedMetric>, for_prometheus: bool) -> Seq<Seq<char>>
    decreases metrics.len(),
{
    if metrics.len() == 0 {
        Seq::empty()
    } else {
        let metric = metrics.last();
        let suffix = if for_prometheus {
            Seq::empty()
        } else {
            metric.metric.kind.suffix()
        };
        all_lines(metrics.drop_last(), for_prometheus) + metric_lines(metric, suffix)
    }
}

/// Whether a line is a line of a metric: it holds something, has no line end inside, and is not
/// the end marker.
pub open spec fn is_metric_line(line: Seq<char>) -> bool {
    &&& line.len() > 0
    &&& crate::format::on_one_line(line)
    &&& line != "# EOF"@
}

proof fn lemma_joined(first: Seq<Seq<char>>, second: Seq<Seq<char>>)
    ensures
        joined(first + second) == joined(first) + joined(second),
    decreases second.len(),
{
    if second.len() == 0 {
        assert(first + second =~= first);
        assert(joined(first) + joined(second) =~= joined(first));
    } else {
        let both = first + second;
        assert(both.drop_last() =~= first + second.drop_last());
        lemma_joined(first, second.drop_last());
        assert(joined(both) =~= joined(first) + joined(second));
    }
}

/// The text of the lines that describe a metric.
proof fn lemma_head_text(listed: ListedMetric)
    ensures
        joined(head_lines(listed)) == listed.metric.head_text(Seq::empty()),
{
    let none = Seq::<char>::empty();
    let metric = listed.metric;
    let help = metric.help_line(none);
    let typed = metric.type_line(none);
    let first = seq![help];
    let head = seq![help, typed];
    assert(none + metric.full_name() =~= metric.full_name());
    assert(first.drop_last() =~= Seq::empty());
    assert(joined(first.drop_last()) =~= none);
    assert(joined(first) == none + help + "\n"@);
    assert(joined(first) =~= help + "\n"@);
    assert(head.drop_last() =~= first);
    assert(joined(head) == help + "\n"@ + typed + "\n"@);
    if let Some(unit) = metric.unit {
        let unit_line = "# UNIT "@ + metric.full_name() + " "@ + unit;
        assert(head.push(unit_line).drop_last() =~= head);
        assert(joined(head.push(unit_line)) == joined(head) + unit_line + "\n"@);
        assert(joined(head) + unit_line + "\n"@ =~= joined(head) + metric.unit_line(none));
    } else {
        assert(joined(head) =~= joined(head) + metric.unit_line(none));
    }
}

/// The text of the lines with values.
proof fn lemma_values_text(listed: ListedMetric, suffix: Seq<char>, count: nat)
    ensures
        joined(
            Seq::new(count, |i: int| listed.value_line(Seq::empty(), suffix, Seq::empty(), i)),
        ) == listed.value_lines(Seq::empty(), suffix, Seq::empty(), count),
    decreases count,
{
    let none = Seq::<char>::empty();
    let lines = Seq::new(count, |i: int| listed.value_line(none, suffix, none, i));
    if count > 0 {
        let front = (count - 1) as nat;
        lemma_values_text(listed, suffix, front);
        assert(lines.drop_last() =~= Seq::new(
            front,
            |i: int| listed.value_line(none, suffix, none, i),
        ));
    }
}

/// The text of a metric is that of its lines.
proof fn lemma_metric_text(listed: ListedMetric, suffix: Seq<char>)
    ensures
        joined(metric_lines(listed, suffix)) == listed.metric.head_text(Seq::empty())
            + listed.value_lines(Seq::empty(), suffix, Seq::empty(), listed.samples.len()),
{
    let values = Seq::new(
        listed.samples.len(),
        |i: int| listed.value_line(Seq::empty(), suffix, Seq::empty(), i),
    );
    lemma_head_text(listed);
    lemma_values_text(listed, suffix, listed.samples.len());
    lemma_joined(head_lines(listed), values);
}

proof fn lemma_metric_lines(listed: ListedMetric, suffix: Seq<char>)
    requires
        crate::format::is_presentable(listed),
        suffix == listed.metric.kind.suffix() || suffix == Seq::<char>::empty(),
    ensures
        forall|i: int|
            0 <= i < metric_lines(listed, suffix).len() ==> is_metric_line(
                #[trigger] metric_lines(listed, suffix)[i],
            ),
{
    reveal_strlit("# HELP ");
    reveal_strlit("# TYPE ");
    reveal_strlit("# UNIT ");
    reveal_strlit("# EOF");
    let none = Seq::<char>::empty();
    let metric = listed.metric;
    let head = head_lines(listed);
    let lines = metric_lines(listed, suffix);
    crate::format::lemma_lines(listed);
    assert(metric.help_line(none)[2] == 'H');
    assert(metric.type_line(none)[2] == 'T');
    if let Some(unit) = metric.unit {
        let unit_line = "# UNIT "@ + metric.full_name() + " "@ + unit;
        assert(unit_line[2] == 'U');
    }
    assert forall|i: int| 0 <= i < lines.len() implies is_metric_line(#[trigger] lines[i]) by {
        if i < head.len() {
            assert(lines[i] == head[i]);
        } else {
            let sample = i - head.len();
            assert(lines[i] == listed.value_line(none, suffix, none, sample));
            crate::format::lemma_value_on_one_line(listed, suffix, sample);
        }
    }
}

proof fn lemma_all_lines(metrics: Seq<ListedMetric>, for_prometheus: bool)
    requires
        forall|i: int|
            0 <= i < metrics.len() ==> crate::format::is_presentable(#[trigger] metrics[i]),
    ensures
        forall|i: int|
            0 <= i < all_lines(metrics, for_prometheus).len() ==> is_metric_line(
                #[trigger] all_lines(metrics, for_prometheus)[i],
            ),
        joined(all_lines(metrics, for_prometheus)) == (if for_prometheus {
            crate::format::all_prometheus_text(metrics)
        } else {
            crate::exposition::all_text(Seq::empty(), Seq::empty(), metrics)
        }),
    decreases metrics.len(),
{
    if metrics.len() > 0 {
        let front = metrics.drop_last();
        let metric = metrics.last();
        let suffix = if for_prometheus {
            Seq::empty()
        } else {
            metric.metric.kind.suffix()
        };
        assert forall|i: int| 0 <= i < front.len() implies crate::format::is_presentable(
            #[trigger] front[i],
        ) by {
            assert(front[i] == metrics[i]);
        }
        assert(crate::format::is_presentable(metrics[metrics.len() - 1]));
        let first = all_lines(front, for_prometheus);
        let second = metric_lines(metric, suffix);
        lemma_all_lines(front, for_prometheus);
        lemma_metric_lines(metric, suffix);
        lemma_metric_text(metric, suffix);
        lemma_joined(first, second);
        let lines = all_lines(metrics, for_prometheus);
        assert(lines == first + second);
        assert forall|i: int| 0 <= i < lines.len() implies is_metric_line(#[trigger] lines[i]) by {
            if i < first.len() {
                assert(lines[i] == first[i]);
            } else {
                assert(lines[i] == second[i - first.len()]);
            }
        }
    }
}

/// Exported text consists of lines none of which is empty. In the OpenMetrics formats the last
/// line is the end marker, and no other line is; in the Prometheus format no line is.
///
/// This is said of metrics whose names, help texts and labels have no line ends.
pub proof fn lemma_exposition_lines(metrics: Seq<ListedMetric>)
    requires
        forall|i: int|
            0 <= i < metrics.len() ==> crate::format::is_presentable(#[trigger] metrics[i]),
    ensures
        ({
            let dotted = crate::exposition::all_dotted(metrics);
            let lines = all_lines(dotted, false);
            let prometheus_lines = all_lines(dotted, true);
            &&& Format::OpenMetrics.exposition_text(metrics) == joined(lines.push("# EOF"@))
            &&& Format::OpenMetricsForPrometheus.exposition_text(metrics) == joined(
                prometheus_lines.push("# EOF"@),
            )
            &&& Format::Prometheus.exposition_text(metrics) == joined(prometheus_lines)
            &&& forall|i: int| 0 <= i < lines.len() ==> is_metric_line(#[trigger] lines[i])
            &&& forall|i: int|
                0 <= i < prometheus_lines.len() ==> is_metric_line(#[trigger] prometheus_lines[i])
        }),
{
    reveal_strlit(".");
    let dotted = crate::exposition::all_dotted(metrics);
    assert forall|i: int| 0 <= i < dotted.len() implies crate::format::is_presentable(
        #[trigger] dotted[i],
    ) by {
        assert(crate::format::is_presentable(metrics[i]));
        assert(dotted[i] == metrics[i].dotted());
        assert(dotted[i].metric.full_name() == metrics[i].metric.full_name());
    }
    lemma_all_lines(dotted, false);
    lemma_all_lines(dotted, true);
    crate::format::lemma_prometheus_formats(metrics);
    assert("# EOF\n"@ =~= "# EOF"@ + "\n"@) by {
        reveal_strlit("# EOF\n");
        reveal_strlit("# EOF");
        reveal_strlit("\n");
    }
    let lines = all_lines(dotted, false);
    assert(lines.push("# EOF"@).drop_last() =~= lines);
    assert(joined(lines) + "# EOF"@ + "\n"@ =~= joined(lines) + ("# EOF"@ + "\n"@));
    let prometheus_lines = all_lines(dotted, true);
    assert(prometheus_lines.push("# EOF"@).drop_last() =~= prometheus_lines);
    assert(joined(prometheus_lines) + "# EOF"@ + "\n"@ =~= joined(prometheus_lines) + ("# EOF"@
        + "\n"@));
}

} // verus!
