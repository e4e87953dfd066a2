//! Tests for collectors.

use std::fmt;
use std::sync::atomic::{AtomicI64, Ordering};
use std::sync::Arc;

use once_cell::sync::Lazy;
use prometheus_client::collector::Collector as PrometheusCollector;
use prometheus_client::encoding::{text, DescriptorEncoder};
use prometheus_client::metrics::gauge::Gauge;
use prometheus_client::registry::Registry as PrometheusRegistry;
use vetric::collector::encode_optional;
use vetric::exposition::encode_all;
use vetric::{
    CollectToRegistry, Collector, Format, Global, Labelled, LazyGlobalCollector, Metric,
    MetricDescriptor, MetricGroupDescriptor, MetricValue, Metrics, Registry, Unit,
};

#[derive(Debug, Default)]
struct TestMetrics {
    gauge: Gauge,
}

const GAUGE: MetricDescriptor = MetricDescriptor {
    name: "dynamic_gauge",
    help: "Test gauge",
    unit: Some(Unit::Bytes),
};

impl Metrics for TestMetrics {
    const DESCRIPTOR: MetricGroupDescriptor = MetricGroupDescriptor {
        crate_name: "vetric",
        crate_version: "0.1.0",
        metrics: &[GAUGE],
    };

    fn visit_metrics(&self) -> Vec<Metric> {
        vec![Metric {
            descriptor: GAUGE,
            value: MetricValue::Gauge(self.gauge.get()),
        }]
    }
}

fn assert_collector_works<C: CollectToRegistry>(registry: &Registry<C>, state: &Arc<AtomicI64>) {
    state.store(123, Ordering::Release);
    let mut buffer = String::new();
    registry.encode(&mut buffer, Format::OpenMetrics).unwrap();
    let lines: Vec<_> = buffer.lines().collect();

    let expected_lines = [
        "# HELP dynamic_gauge_bytes Test gauge.",
        "# TYPE dynamic_gauge_bytes gauge",
        "# UNIT dynamic_gauge_bytes bytes",
        "dynamic_gauge_bytes 123",
    ];
    for line in expected_lines {
        assert!(lines.contains(&line), "{lines:#?}");
    }
}

#[test]
fn using_owning_collector() {
    let state = Arc::new(AtomicI64::new(0));
    let state_for_collector = Arc::downgrade(&state);

    let mut collector = Collector::<Option<TestMetrics>, _>::new();
    collector
        .before_scrape(move || {
            let state = state_for_collector.upgrade()?;
            let metrics = TestMetrics::default();
            metrics.gauge.set(state.load(Ordering::Relaxed));
            Some(metrics)
        })
        .unwrap();

    let mut registry = Registry::empty();
    registry.register_collector(collector);
    assert_collector_works(&registry, &state);

    drop(state);
    let mut buffer = String::new();
    registry.encode(&mut buffer, Format::OpenMetrics).unwrap();

    assert_eq!(buffer, "# EOF\n");
}

static METRICS_INSTANCE: Lazy<TestMetrics> = Lazy::new(TestMetrics::default);

#[test]
fn using_borrowing_collector() {
    let state = Arc::new(AtomicI64::new(0));
    let state_for_collector = Arc::downgrade(&state);

    let mut collector = Collector::<&'static TestMetrics, _>::new();
    collector
        .before_scrape(move || {
            let metrics: &'static TestMetrics = &METRICS_INSTANCE;
            if let Some(state) = state_for_collector.upgrade() {
                metrics.gauge.set(state.load(Ordering::Relaxed));
            }
            metrics
        })
        .unwrap();

    let mut registry = Registry::empty();
    registry.register_collector(collector);
    assert_collector_works(&registry, &state);

    METRICS_INSTANCE.gauge.set(42);
    drop(state);

    let mut buffer = String::new();
    registry.encode(&mut buffer, Format::OpenMetrics).unwrap();
    let lines: Vec<_> = buffer.lines().collect();
    assert!(lines.contains(&"dynamic_gauge_bytes 42"), "{lines:#?}");
}

fn gauge_at(value: i64) -> TestMetrics {
    let metrics = TestMetrics::default();
    metrics.gauge.set(value);
    metrics
}

#[test]
fn hook_can_be_set_once() {
    let mut collector = Collector::<TestMetrics, fn() -> TestMetrics>::new();
    assert!(collector.collect().is_empty());
    assert_eq!(collector.debug_text(), "Collector { inner: None }");

    assert!(collector.before_scrape(|| gauge_at(1)).is_ok());
    assert_eq!(collector.debug_text(), "Collector { inner: Some(\"_\") }");
    for _ in 0..2 {
        let err = collector.before_scrape(|| gauge_at(2)).unwrap_err();
        assert_eq!(
            err.message(),
            "Cannot set collector function: it is already set"
        );
    }
    assert_eq!(collector.collect()[0].value, MetricValue::Gauge(1));
}

#[test]
fn hook_can_be_set_after_registration() {
    let mut registry = Registry::empty();
    registry.register_collector(Collector::<TestMetrics, fn() -> TestMetrics>::new());
    assert!(registry.scrape().is_empty());

    let collector = registry.collector_mut(0).unwrap();
    collector.before_scrape(|| gauge_at(6)).unwrap();
    assert_eq!(registry.scrape()[0].value, MetricValue::Gauge(6));
    assert!(registry.collector_mut(1).is_none());
}

#[test]
fn collector_without_hook_exports_nothing() {
    let mut registry = Registry::empty();
    let collector = Collector::<TestMetrics, fn() -> TestMetrics>::new();
    collector.collect_to_registry(&mut registry);
    for (format, expected) in [
        (Format::OpenMetrics, "# EOF\n"),
        (Format::OpenMetricsForPrometheus, "# EOF\n"),
        (Format::Prometheus, ""),
    ] {
        let mut buffer = String::new();
        registry.encode(&mut buffer, format).unwrap();
        assert_eq!(buffer, expected);
    }
    assert_eq!(registry.descriptors().metric_count(), 1);
    assert_eq!(registry.descriptors().groups()[..], [TestMetrics::DESCRIPTOR]);
}

/// Lets `prometheus_client` scrape what can be encoded.
struct Scraped<F>(F);

impl<F> fmt::Debug for Scraped<F> {
    fn fmt(&self, formatter: &mut fmt::Formatter<'_>) -> fmt::Result {
        formatter.write_str("Scraped")
    }
}

impl<F> PrometheusCollector for Scraped<F>
where
    F: Fn(&mut DescriptorEncoder<'_>) -> fmt::Result + Send + Sync + 'static,
{
    fn encode(&self, mut encoder: DescriptorEncoder) -> fmt::Result {
        (self.0)(&mut encoder)
    }
}

fn scrape<F>(mut registry: PrometheusRegistry, encode: F) -> String
where
    F: Fn(&mut DescriptorEncoder<'_>) -> fmt::Result + Send + Sync + 'static,
{
    registry.register_collector(Box::new(Scraped(encode)));
    let mut buffer = String::new();
    text::encode(&mut buffer, &registry).unwrap();
    buffer
}

fn two_metrics() -> Vec<Metric> {
    vec![
        Metric {
            descriptor: MetricDescriptor {
                name: "requests",
                help: "Number of requests",
                unit: None,
            },
            value: MetricValue::Counter(17),
        },
        Metric {
            descriptor: GAUGE,
            value: MetricValue::Gauge(-5),
        },
    ]
}

#[test]
fn collected_metrics_read_like_registered_ones() {
    let collected = scrape(PrometheusRegistry::default(), |encoder| {
        encode_all(&two_metrics(), encoder)
    });
    assert_eq!(
        collected,
        "# HELP requests Number of requests.\n\
         # TYPE requests counter\n\
         requests_total 17\n\
         # HELP dynamic_gauge_bytes Test gauge.\n\
         # TYPE dynamic_gauge_bytes gauge\n\
         # UNIT dynamic_gauge_bytes bytes\n\
         dynamic_gauge_bytes -5\n\
         # EOF\n"
    );
    assert_eq!(collected, Format::OpenMetrics.exposition(&two_metrics()).unwrap());
}

#[test]
fn prefix_and_labels_of_the_encoder_are_kept() {
    let labels = [("zone".into(), "a".into())];
    let registry = PrometheusRegistry::with_prefix_and_labels("app", labels.into_iter());
    let text = scrape(registry, |encoder| encode_all(&two_metrics(), encoder));
    assert_eq!(
        text,
        "# HELP app_requests Number of requests.\n\
         # TYPE app_requests counter\n\
         app_requests_total{zone=\"a\"} 17\n\
         # HELP app_dynamic_gauge_bytes Test gauge.\n\
         # TYPE app_dynamic_gauge_bytes gauge\n\
         # UNIT app_dynamic_gauge_bytes bytes\n\
         app_dynamic_gauge_bytes{zone=\"a\"} -5\n\
         # EOF\n"
    );
}

fn labelled_gauge() -> Vec<Metric> {
    vec![Metric {
        descriptor: GAUGE,
        value: MetricValue::GaugeFamily(vec![Labelled {
            labels: vec![
                ("method".to_owned(), "GET".to_owned()),
                ("status".to_owned(), "200".to_owned()),
            ],
            value: -7,
        }]),
    }]
}

#[test]
fn labels_of_a_value_follow_those_of_the_encoder() {
    let labels = [("zone".into(), "a".into())];
    let registry = PrometheusRegistry::with_prefix_and_labels("app", labels.into_iter());
    let text = scrape(registry, |encoder| encode_all(&labelled_gauge(), encoder));
    assert_eq!(
        text,
        "# HELP app_dynamic_gauge_bytes Test gauge.\n\
         # TYPE app_dynamic_gauge_bytes gauge\n\
         # UNIT app_dynamic_gauge_bytes bytes\n\
         app_dynamic_gauge_bytes{zone=\"a\",method=\"GET\",status=\"200\"} -7\n\
         # EOF\n"
    );

    let text = scrape(PrometheusRegistry::default(), |encoder| {
        encode_all(&labelled_gauge(), encoder)
    });
    assert!(
        text.contains("\ndynamic_gauge_bytes{method=\"GET\",status=\"200\"} -7\n"),
        "{text}"
    );
    assert_eq!(text, Format::OpenMetrics.exposition(&labelled_gauge()).unwrap());
}

#[test]
fn collector_encodes_what_its_hook_returns() {
    let text = scrape(PrometheusRegistry::default(), |encoder| {
        let mut collector = Collector::<TestMetrics, fn() -> TestMetrics>::new();
        collector.encode(encoder)?;
        collector.before_scrape(|| gauge_at(9)).unwrap();
        collector.encode(encoder)
    });
    assert_eq!(
        text,
        "# HELP dynamic_gauge_bytes Test gauge.\n\
         # TYPE dynamic_gauge_bytes gauge\n\
         # UNIT dynamic_gauge_bytes bytes\n\
         dynamic_gauge_bytes 9\n\
         # EOF\n"
    );
}

/// Writer that refuses text behind the given number of bytes.
struct LimitedWriter {
    text: String,
    limit: usize,
}

impl fmt::Write for LimitedWriter {
    fn write_str(&mut self, text: &str) -> fmt::Result {
        if self.text.len() + text.len() > self.limit {
            return Err(fmt::Error);
        }
        self.text.push_str(text);
        Ok(())
    }
}

#[test]
fn encoding_stops_at_the_first_refused_metric() {
    let mut registry = PrometheusRegistry::default();
    registry.register_collector(Box::new(Scraped(|encoder: &mut DescriptorEncoder<'_>| {
        encode_all(&two_metrics(), encoder)
    })));
    let mut writer = LimitedWriter {
        text: String::new(),
        limit: 90,
    };
    assert!(text::encode(&mut writer, &registry).is_err());
    assert_eq!(
        writer.text,
        "# HELP requests Number of requests.\n\
         # TYPE requests counter\n\
         requests_total 17\n\
         # HELP "
    );
}

/// Writer that refuses pieces of text longer than the given number of bytes.
struct PickyWriter {
    text: String,
    longest: usize,
}

impl fmt::Write for PickyWriter {
    fn write_str(&mut self, text: &str) -> fmt::Result {
        if text.len() > self.longest {
            return Err(fmt::Error);
        }
        self.text.push_str(text);
        Ok(())
    }
}

#[test]
fn nothing_is_encoded_behind_a_refused_metric() {
    let named = |name: &'static str, help: &'static str| Metric {
        descriptor: MetricDescriptor {
            name,
            help,
            unit: None,
        },
        value: MetricValue::Gauge(1),
    };
    let metrics = [
        named("first", "First"),
        named("second", "Second, with a long help text"),
        named("third", "Third"),
    ];
    let mut registry = PrometheusRegistry::default();
    registry.register_collector(Box::new(Scraped(
        move |encoder: &mut DescriptorEncoder<'_>| encode_all(&metrics.to_vec(), encoder),
    )));
    let mut writer = PickyWriter {
        text: String::new(),
        longest: 20,
    };
    assert!(text::encode(&mut writer, &registry).is_err());
    assert_eq!(
        writer.text,
        "# HELP first First.\n\
         # TYPE first gauge\n\
         first 1\n\
         # HELP second "
    );
}

#[test]
fn nothing_is_encoded_behind_a_refused_label() {
    let mut registry = PrometheusRegistry::default();
    registry.register_collector(Box::new(Scraped(|encoder: &mut DescriptorEncoder<'_>| {
        let mut metrics = two_metrics();
        metrics[0].value = MetricValue::CounterFamily(vec![Labelled {
            labels: vec![("path".to_owned(), "/a/label/that/is/too/long".to_owned())],
            value: 1,
        }]);
        encode_all(&metrics, encoder)
    })));
    let mut writer = PickyWriter {
        text: String::new(),
        longest: 20,
    };
    assert!(text::encode(&mut writer, &registry).is_err());
    assert_eq!(
        writer.text,
        "# HELP requests Number of requests.\n\
         # TYPE requests counter\n\
         requests_total{path=\""
    );
}

#[test]
fn global_metrics_are_exported_once_they_are_initialized() {
    static METRICS: Global<TestMetrics, fn() -> TestMetrics> = Global(Lazy::new(|| gauge_at(3)));

    let encode = |encoder: &mut DescriptorEncoder<'_>| {
        LazyGlobalCollector::new(&METRICS).encode(encoder)
    };
    assert_eq!(scrape(PrometheusRegistry::default(), encode), "# EOF\n");
    assert!(LazyGlobalCollector::new(&METRICS).collect().is_empty());
    // Scraping has not initialized the metrics.
    assert!(Lazy::get(&METRICS.0).is_none());

    Lazy::force(&METRICS.0);
    let text = scrape(PrometheusRegistry::default(), encode);
    assert!(text.contains("\ndynamic_gauge_bytes 3\n"), "{text}");
    let collector = LazyGlobalCollector::new(&METRICS);
    assert_eq!(collector.descriptor(), TestMetrics::DESCRIPTOR);
    assert_eq!(collector.collect()[0].value, MetricValue::Gauge(3));
}

#[test]
fn wrapped_groups_have_the_descriptor_of_the_group() {
    assert_eq!(Option::<TestMetrics>::DESCRIPTOR, TestMetrics::DESCRIPTOR);
    assert_eq!(<&TestMetrics>::DESCRIPTOR, TestMetrics::DESCRIPTOR);
    let collector = Collector::<Option<TestMetrics>, fn() -> Option<TestMetrics>>::new();
    assert_eq!(collector.descriptor(), TestMetrics::DESCRIPTOR);
}

#[test]
fn absent_groups_are_not_encoded() {
    let text = scrape(PrometheusRegistry::default(), |encoder| {
        encode_optional::<TestMetrics>(None, encoder)?;
        encode_optional(Some(&gauge_at(4)), encoder)
    });
    assert_eq!(text.lines().count(), 5);
    assert!(text.contains("\ndynamic_gauge_bytes 4\n"), "{text}");
}

#[test]
fn units_go_by_their_names() {
    let units = [
        (Unit::Amperes, "amperes"),
        (Unit::Bytes, "bytes"),
        (Unit::Celsius, "celsius"),
        (Unit::Grams, "grams"),
        (Unit::Joules, "joules"),
        (Unit::Meters, "meters"),
        (Unit::Ratios, "ratios"),
        (Unit::Seconds, "seconds"),
        (Unit::Volts, "volts"),
        (Unit::Other("blocks"), "blocks"),
    ];
    for (unit, name) in units {
        assert_eq!(unit.as_str(), name);
        let metric = Metric {
            descriptor: MetricDescriptor {
                name: "size",
                help: "Size",
                unit: Some(unit),
            },
            value: MetricValue::Gauge(i64::MIN),
        };
        let text = Format::OpenMetrics.exposition(&vec![metric]).unwrap();
        assert_eq!(
            text,
            format!(
                "# HELP size_{name} Size.\n# TYPE size_{name} gauge\n\
                 # UNIT size_{name} {name}\nsize_{name} -9223372036854775808\n# EOF\n"
            )
        );
    }
}

#[test]
fn registry_keeps_the_order_of_registration() {
    type Hook = fn() -> TestMetrics;
    let mut first = Collector::<TestMetrics, Hook>::new();
    first.before_scrape(|| gauge_at(1)).unwrap();
    let mut second = Collector::<TestMetrics, Hook>::new();
    second.before_scrape(|| gauge_at(2)).unwrap();

    let registry = Registry::collect(vec![first, second]);
    assert_eq!(registry.descriptors().groups().len(), 2);
    assert_eq!(registry.descriptors().metric_count(), 2);
    let values: Vec<_> = registry.scrape().into_iter().map(|metric| metric.value).collect();
    assert_eq!(values, [MetricValue::Gauge(1), MetricValue::Gauge(2)]);
}
