//! Tests for exported text.

use vetric::text::{chars_of, decimal_text, same_text};
use vetric::{Format, Labelled, Metric, MetricDescriptor, MetricValue};

#[test]
fn numbers_are_written_in_decimal_notation() {
    for n in [0, 7, 10, 105, 999, 1_000, u128::MAX] {
        assert_eq!(decimal_text(n), format!("{n}"));
    }
}

#[test]
fn texts_are_compared_by_their_characters() {
    assert!(same_text("", ""));
    assert!(same_text("na\u{ef}ve", "na\u{ef}ve"));
    assert!(!same_text("a", "b"));
    assert!(!same_text("a", "ab"));
    assert_eq!(chars_of("na\u{ef}"), ['n', 'a', '\u{ef}']);
}

fn metric(name: &'static str, help: &'static str, value: MetricValue) -> Metric {
    Metric {
        descriptor: MetricDescriptor {
            name,
            help,
            unit: None,
        },
        value,
    }
}

#[test]
fn only_counters_lose_their_suffix() {
    let metrics = vec![
        metric("requests", "Requests", MetricValue::Counter(u64::MAX)),
        metric("requests_total", "Gauge", MetricValue::Gauge(-1)),
        metric("errors_total", "Counter", MetricValue::Counter(0)),
    ];
    let expected = "# HELP requests Requests.\n\
                    # TYPE requests counter\n\
                    requests 18446744073709551615\n\
                    # HELP requests_total Gauge.\n\
                    # TYPE requests_total gauge\n\
                    requests_total -1\n\
                    # HELP errors_total Counter.\n\
                    # TYPE errors_total counter\n\
                    errors_total 0\n";
    assert_eq!(Format::Prometheus.exposition(&metrics).unwrap(), expected);
    assert_eq!(
        Format::OpenMetricsForPrometheus.exposition(&metrics).unwrap(),
        format!("{expected}# EOF\n")
    );
    assert_eq!(
        Format::OpenMetrics.exposition(&metrics).unwrap(),
        "# HELP requests Requests.\n\
         # TYPE requests counter\n\
         requests_total 18446744073709551615\n\
         # HELP requests_total Gauge.\n\
         # TYPE requests_total gauge\n\
         requests_total -1\n\
         # HELP errors_total Counter.\n\
         # TYPE errors_total counter\n\
         errors_total_total 0\n\
         # EOF\n"
    );
}

fn under<V>(method: &str, value: V) -> Labelled<V> {
    Labelled {
        labels: vec![("method".to_owned(), method.to_owned())],
        value,
    }
}

#[test]
fn each_value_of_a_family_has_a_line() {
    let values = vec![under("GET", 3), under("PUT", 5), under("POST", 0)];
    let metrics = vec![
        metric("requests", "Requests", MetricValue::CounterFamily(values)),
        metric("last", "Last", MetricValue::Gauge(1)),
    ];
    let cases = [
        (Format::OpenMetrics, "requests_total", 9),
        (Format::OpenMetricsForPrometheus, "requests", 9),
        (Format::Prometheus, "requests", 8),
    ];
    for (format, name, line_count) in cases {
        let text = format.exposition(&metrics).unwrap();
        let lines: Vec<_> = text.lines().collect();
        assert_eq!(lines.len(), line_count);
        assert_eq!(lines[..2], ["# HELP requests Requests.", "# TYPE requests counter"]);
        let mut values = lines[2..5].to_vec();
        values.sort_unstable();
        assert_eq!(
            values,
            [
                format!("{name}{{method=\"GET\"}} 3"),
                format!("{name}{{method=\"POST\"}} 0"),
                format!("{name}{{method=\"PUT\"}} 5"),
            ]
        );
        assert_eq!(lines[5..8], ["# HELP last Last.", "# TYPE last gauge", "last 1"]);
    }
}

#[test]
fn last_value_under_a_label_set_counts() {
    let counters = vec![under("GET", 3), under("GET", 1)];
    let gauges = vec![under("GET", -3), under("GET", 4)];
    let metrics = vec![
        metric("requests", "Requests", MetricValue::CounterFamily(counters)),
        metric("load", "Load", MetricValue::GaugeFamily(gauges)),
    ];
    assert_eq!(
        Format::OpenMetrics.exposition(&metrics).unwrap(),
        "# HELP requests Requests.\n\
         # TYPE requests counter\n\
         requests_total{method=\"GET\"} 1\n\
         # HELP load Load.\n\
         # TYPE load gauge\n\
         load{method=\"GET\"} 4\n\
         # EOF\n"
    );
}

#[test]
fn families_may_be_empty_and_labels_too() {
    let unlabelled = vec![Labelled {
        labels: vec![],
        value: 2,
    }];
    let metrics = vec![
        metric("requests", "Requests", MetricValue::CounterFamily(vec![])),
        metric("load", "Load", MetricValue::GaugeFamily(unlabelled)),
    ];
    assert_eq!(
        Format::OpenMetrics.exposition(&metrics).unwrap(),
        "# HELP requests Requests.\n\
         # TYPE requests counter\n\
         # HELP load Load.\n\
         # TYPE load gauge\n\
         load{} 2\n\
         # EOF\n"
    );
}

#[test]
fn exposition_of_nothing_is_the_end_marker() {
    let none: Vec<Metric> = Vec::new();
    assert_eq!(Format::OpenMetrics.exposition(&none).unwrap(), "# EOF\n");
    assert_eq!(
        Format::OpenMetricsForPrometheus.exposition(&none).unwrap(),
        "# EOF\n"
    );
    assert_eq!(Format::Prometheus.exposition(&none).unwrap(), "");
}
