//! Tests for the exporter.

use std::sync::Arc;

use vetric::exporter::{PushRequest, RenderedResponse};
use vetric::push::{PushLoop, PushOutcome, PushReport, ERROR_LOG_INTERVAL_NANOS};
use vetric::report::{describe_body, report_erroneous_response, ResponseReport};
use vetric::server::{Server, ServerAction, ServerEvent};
use vetric::{
    CollectToRegistry, Format, Labelled, Metric, MetricDescriptor, MetricGroupDescriptor,
    MetricValue, MetricsExporter, Registry,
};

const COUNTER: MetricDescriptor = MetricDescriptor {
    name: "modern_counter",
    help: "Counter",
    unit: None,
};
const GAUGE: MetricDescriptor = MetricDescriptor {
    name: "modern_gauge",
    help: "Gauge of counter_total",
    unit: None,
};

/// Source of a counter and a gauge with a label that is defined by some crate.
#[derive(Debug)]
struct TestSource {
    crate_name: &'static str,
    crate_version: &'static str,
}

impl CollectToRegistry for TestSource {
    fn descriptor(&self) -> MetricGroupDescriptor {
        MetricGroupDescriptor {
            crate_name: self.crate_name,
            crate_version: self.crate_version,
            metrics: &[COUNTER, GAUGE],
        }
    }

    fn collect(&self) -> Vec<Metric> {
        vec![
            Metric {
                descriptor: COUNTER,
                value: MetricValue::Counter(1),
            },
            Metric {
                descriptor: GAUGE,
                value: MetricValue::GaugeFamily(vec![Labelled {
                    labels: vec![("label".to_owned(), "value".to_owned())],
                    value: 42,
                }]),
            },
        ]
    }
}

fn test_registry() -> Arc<Registry<TestSource>> {
    Arc::new(Registry::collect(vec![TestSource {
        crate_name: "vetric",
        crate_version: "0.1.0",
    }]))
}

type TestExporter = MetricsExporter<TestSource, &'static str>;

fn assert_scraped_payload_is_valid(payload: &str) {
    let payload_lines: Vec<_> = payload.lines().collect();

    assert!(payload_lines.iter().all(|line| !line.is_empty()));

    let expected_lines = [
        "# TYPE modern_counter counter",
        "# TYPE modern_gauge gauge",
        "modern_gauge{label=\"value\"} 42",
    ];
    for line in expected_lines {
        assert!(payload_lines.contains(&line), "{payload_lines:#?}");
    }

    // Check counter reporting.
    let expected_prefixes = ["modern_counter "];
    for prefix in expected_prefixes {
        assert!(
            payload_lines.iter().any(|line| line.starts_with(prefix)),
            "{payload_lines:#?}"
        );
    }

    let lines_count = payload_lines.len();
    assert_eq!(*payload_lines.last().unwrap(), "# EOF");
    for &line in &payload_lines[..lines_count - 1] {
        assert_ne!(line, "# EOF");
    }
}

#[test]
fn default_exporter_renders_for_prometheus() {
    let exporter = TestExporter::new(test_registry());
    assert_eq!(exporter.inner.format, Format::OpenMetricsForPrometheus);
    assert!(exporter.shutdown.is_none());

    let response = exporter.inner.render();
    assert_eq!(response.status, 200);
    assert_eq!(response.content_type, Format::OPEN_METRICS_CONTENT_TYPE);
    assert_scraped_payload_is_valid(&response.body);
    assert_eq!(
        response.body,
        "# HELP modern_counter Counter.\n\
         # TYPE modern_counter counter\n\
         modern_counter 1\n\
         # HELP modern_gauge Gauge of counter_total.\n\
         # TYPE modern_gauge gauge\n\
         modern_gauge{label=\"value\"} 42\n\
         # EOF\n"
    );

    let scraped = exporter.inner.render_body();
    assert_eq!(scraped.scraped_size, response.body.len());
    assert_eq!(scraped.body, response.body);
}

#[test]
fn format_determines_content_type_and_text() {
    let registry = test_registry();
    let cases = [
        (
            Format::OpenMetrics,
            "application/openmetrics-text; version=1.0.0; charset=utf-8",
            "modern_counter_total 1",
            "# EOF",
        ),
        (
            Format::OpenMetricsForPrometheus,
            "application/openmetrics-text; version=1.0.0; charset=utf-8",
            "modern_counter 1",
            "# EOF",
        ),
        (
            Format::Prometheus,
            "text/plain; version=0.0.4; charset=utf-8",
            "modern_counter 1",
            "modern_gauge{label=\"value\"} 42",
        ),
    ];
    for (format, content_type, counter_line, last_line) in cases {
        let exporter = TestExporter::new(registry.clone()).with_format(format);
        let response = exporter.inner.clone().render();
        assert_eq!(response.content_type, content_type);
        let lines: Vec<_> = response.body.lines().collect();
        assert_eq!(lines[2], counter_line);
        assert_eq!(*lines.last().unwrap(), last_line);
    }
}

#[test]
fn builders_set_one_thing_each() {
    let exporter = TestExporter::new(test_registry())
        .with_graceful_shutdown("first")
        .with_format(Format::Prometheus)
        .with_graceful_shutdown("second");
    assert_eq!(exporter.shutdown, Some("second"));
    assert_eq!(exporter.inner.format, Format::Prometheus);
    let exporter = exporter.with_format(Format::OpenMetrics);
    assert_eq!(exporter.shutdown, Some("second"));
    assert_eq!(exporter.inner.format, Format::OpenMetrics);
}

#[test]
fn pushed_metrics_are_valid() {
    let exporter = TestExporter::new(test_registry());
    let request = exporter.inner.push_request("http://127.0.0.1:14670/".to_owned());
    assert_eq!(request.method, "PUT");
    assert_eq!(request.uri, "http://127.0.0.1:14670/");
    assert_eq!(request.content_type, Format::OPEN_METRICS_CONTENT_TYPE);
    assert_scraped_payload_is_valid(&request.body);

    // The content type of a push does not depend on the format.
    let exporter = exporter.with_format(Format::Prometheus);
    let request = exporter.inner.push_request(String::new());
    assert_eq!(request.content_type, Format::OPEN_METRICS_CONTENT_TYPE);
}

#[test]
fn messages_carry_their_bodies() {
    let response = RenderedResponse::new(Format::Prometheus, "body".to_owned());
    assert_eq!(response.status, 200);
    assert_eq!(response.content_type, Format::PROMETHEUS_CONTENT_TYPE);
    assert_eq!(response.body, "body");
    let request = PushRequest::new("uri".to_owned(), "body".to_owned());
    assert_eq!((request.uri.as_str(), request.body.as_str()), ("uri", "body"));
}

fn stats_of(crates: &[(&'static str, &'static str)]) -> String {
    let sources = crates.iter().map(|&(crate_name, crate_version)| TestSource {
        crate_name,
        crate_version,
    });
    TestExporter::log_metrics_stats(&Registry::collect(sources.collect()))
}

#[test]
fn stats_name_a_sample_of_crates() {
    assert_eq!(
        stats_of(&[]),
        "Created metrics exporter with 0 metrics in 0 groups from crates ..."
    );
    assert_eq!(
        stats_of(&[("a", "1"), ("b", "1"), ("a", "1"), ("a", "2")]),
        "Created metrics exporter with 8 metrics in 4 groups from crates a 1, b 1, a 2, ..."
    );
    let many = [
        ("a", "1"),
        ("b", "1"),
        ("c", "1"),
        ("d", "1"),
        ("a", "1"),
        ("e", "1"),
        ("f", "1"),
    ];
    assert_eq!(
        stats_of(&many),
        "Created metrics exporter with 14 metrics in 7 groups from crates \
         a 1, b 1, c 1, d 1, e 1, ..."
    );
}

/// Behavior of a gateway: it accepts, refuses and drops pushes in turn.
#[derive(Debug)]
enum MockServerBehavior {
    Accept,
    Error,
    Panic,
}

impl MockServerBehavior {
    fn from_counter(counter: u32) -> Self {
        match counter % 3 {
            1 => Self::Error,
            2 => Self::Panic,
            _ => Self::Accept,
        }
    }

    fn outcome(&self) -> PushOutcome {
        match self {
            Self::Accept => PushOutcome::Response(202),
            Self::Error => PushOutcome::Response(503),
            Self::Panic => PushOutcome::TransportError,
        }
    }
}

#[test]
fn using_push_gateway() {
    let interval_nanos: u128 = 50_000_000;
    let exporter = TestExporter::new(test_registry());
    let mut state = PushLoop::new();
    let mut warnings = vec![];

    // Test that the push logic doesn't stop after an error received from the gateway
    for counter in 0..4_u32 {
        state.on_wait_ended(false);
        let endpoint = "http://127.0.0.1:14670/".to_owned();
        let request = exporter.inner.push_request(endpoint.clone());
        assert_eq!(request.method, "PUT");
        assert_eq!(request.content_type, Format::OPEN_METRICS_CONTENT_TYPE);
        assert_scraped_payload_is_valid(&request.body);

        let behavior = MockServerBehavior::from_counter(counter);
        let now = interval_nanos * u128::from(counter + 1);
        let step = state.on_push_ended(behavior.outcome(), now);
        assert!(!step.stop);
        match step.report {
            PushReport::Nothing => {}
            PushReport::ErroneousResponse => {
                let body = b"Mistake!".to_vec();
                warnings.push(report_erroneous_response(endpoint, 503, Ok(body)));
            }
            PushReport::TransportError => panic!("{behavior:?} is logged"),
        }
    }

    // Check that we don't spam the error messages.
    assert_eq!(warnings.len(), 1);
    // Check warning contents. We should log the first encountered error (i.e., "Service
    // unavailable").
    match &warnings[0] {
        ResponseReport::Refused {
            status,
            body,
            endpoint,
        } => {
            assert_eq!(*status, 503);
            assert_eq!(body, "Mistake!");
            assert!(endpoint.starts_with("http://127.0.0.1:"));
        }
        ResponseReport::Unreadable { .. } => panic!("{warnings:?}"),
    }
}

#[test]
fn statuses_of_success_are_not_reported() {
    for (status, failed) in [
        (0, true),
        (100, true),
        (199, true),
        (200, false),
        (202, false),
        (299, false),
        (300, true),
        (404, true),
        (503, true),
        (999, true),
        (1_000, true),
    ] {
        let mut state = PushLoop::new();
        state.on_wait_ended(false);
        let step = state.on_push_ended(PushOutcome::Response(status), 5);
        assert_eq!(step.report == PushReport::ErroneousResponse, failed);
        assert_eq!(state.last_error_log, if failed { Some(5) } else { None });
        assert!(!step.stop);
    }
}

#[test]
fn errors_are_not_spammed() {
    let mut state = PushLoop::new();
    let mut push = |outcome, now: u128| {
        state.on_wait_ended(false);
        let step = state.on_push_ended(outcome, now);
        assert!(!step.stop);
        step.report
    };
    let second: u128 = 1_000_000_000;
    assert_eq!(push(PushOutcome::Response(202), 0), PushReport::Nothing);
    assert_eq!(
        push(PushOutcome::Response(503), second),
        PushReport::ErroneousResponse
    );
    assert_eq!(push(PushOutcome::TransportError, 2 * second), PushReport::Nothing);
    assert_eq!(
        push(PushOutcome::TransportError, second + ERROR_LOG_INTERVAL_NANOS - 1),
        PushReport::Nothing
    );
    assert_eq!(
        push(PushOutcome::TransportError, second + ERROR_LOG_INTERVAL_NANOS),
        PushReport::TransportError
    );
    assert_eq!(
        push(PushOutcome::Response(503), 2 * ERROR_LOG_INTERVAL_NANOS),
        PushReport::Nothing
    );
    assert_eq!(
        push(PushOutcome::Response(503), 3 * ERROR_LOG_INTERVAL_NANOS),
        PushReport::ErroneousResponse
    );
    // A clock that goes back does not let another error through.
    assert_eq!(push(PushOutcome::Response(503), 0), PushReport::Nothing);
}

#[test]
fn last_push_follows_shutdown() {
    let mut state = PushLoop::new();
    state.on_wait_ended(false);
    assert!(!state.on_push_ended(PushOutcome::TransportError, 0).stop);
    state.on_wait_ended(true);
    let step = state.on_push_ended(PushOutcome::Response(200), 1);
    assert!(step.stop);
    assert_eq!(step.report, PushReport::Nothing);
}

#[test]
fn server_serves_until_shutdown() {
    let mut server = Server::new();
    assert_eq!(server.on_event(ServerEvent::Bound), ServerAction::Wait);
    for _ in 0..3 {
        assert_eq!(
            server.on_event(ServerEvent::Accepted),
            ServerAction::ServeAndWait
        );
    }
    assert_eq!(
        server.on_event(ServerEvent::ShutdownReceived),
        ServerAction::Finish
    );
    assert_eq!(server, Server::Ended);
}

#[test]
fn connections_are_served_after_the_shutdown_signal() {
    let mut server = Server::new();
    server.on_event(ServerEvent::Bound);
    server.on_event(ServerEvent::Accepted);
    let expected = [
        (ServerEvent::Requested, ServerAction::Respond),
        (ServerEvent::ConnectionFailed, ServerAction::LogConnectionError),
    ];
    for (event, action) in expected {
        assert_eq!(server.on_event(event), action);
        assert_eq!(server, Server::Accepting);
    }

    server.on_event(ServerEvent::Accepted);
    assert_eq!(
        server.on_event(ServerEvent::ShutdownReceived),
        ServerAction::Finish
    );
    let expected = [
        (ServerEvent::Requested, ServerAction::Respond),
        (ServerEvent::Requested, ServerAction::Respond),
        (ServerEvent::ConnectionClosed, ServerAction::Ignore),
    ];
    for (event, action) in expected {
        assert_eq!(server.on_event(event), action);
        assert_eq!(server, Server::Ended);
    }
}

#[test]
fn text_can_be_put_in_front_of_a_body() {
    let exporter = TestExporter::new(test_registry());
    let scraped = exporter.inner.render_body();
    let body = scraped.body.clone();
    let front = "# TYPE caf\u{e9} gauge\n";
    let scraped = scraped.with_front(front);
    assert_eq!(scraped.body, format!("{front}{body}"));
    assert_eq!(scraped.scraped_size, front.len() + body.len());
    assert!(scraped.body.ends_with("\n# EOF\n"));

    let unchanged = exporter.inner.render_body().with_front("");
    assert_eq!(unchanged.body, body);
    assert_eq!(unchanged.scraped_size, body.len());
}

#[test]
fn server_that_is_not_bound_returns_an_error() {
    let mut server = Server::new();
    assert_eq!(
        server.on_event(ServerEvent::BindFailed),
        ServerAction::ReturnError
    );
    assert_eq!(server, Server::Ended);
}

fn body_in_report(bytes: &[u8]) -> String {
    let endpoint = "http://127.0.0.1:14670/".to_owned();
    match report_erroneous_response(endpoint, 503, Ok(bytes.to_vec())) {
        ResponseReport::Refused {
            status,
            body,
            endpoint,
        } => {
            assert_eq!(status, 503);
            assert_eq!(endpoint, "http://127.0.0.1:14670/");
            body
        }
        ResponseReport::Unreadable { .. } => panic!("body was read"),
    }
}

#[test]
fn refused_push_is_reported_with_its_body() {
    assert_eq!(body_in_report(b"Mistake!"), "Mistake!");
    assert_eq!(body_in_report(b""), "");
    assert_eq!(body_in_report("\u{043e}\u{0448}".as_bytes()), "\u{043e}\u{0448}");
}

#[test]
fn body_that_is_not_text_is_described() {
    let bytes = b"0123456789\xff\xfe";
    let err = std::str::from_utf8(bytes).unwrap_err();
    assert_eq!(
        body_in_report(bytes),
        format!("(Non UTF-8 body with length 12B: {err})")
    );
    assert_eq!(
        describe_body(105, Err("reason".to_owned())),
        "(Non UTF-8 body with length 105B: reason)"
    );
    assert_eq!(describe_body(7, Ok("text".to_owned())), "text");
}

#[test]
fn unreadable_body_is_reported_with_the_reason() {
    match report_erroneous_response("uri".to_owned(), 500, Err("reset".to_owned())) {
        ResponseReport::Unreadable {
            status,
            err,
            endpoint,
        } => {
            assert_eq!(status, 500);
            assert_eq!(err, "reset");
            assert_eq!(endpoint, "uri");
        }
        ResponseReport::Refused { .. } => panic!("body was not read"),
    }
}
