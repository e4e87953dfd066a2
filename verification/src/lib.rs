//! Metrics that are collected from an app and exported to Prometheus.
//!
//! Groups of metrics are described by [`Metrics`] and produced by a [`Collector`]. Collectors are
//! gathered in a [`Registry`], from which a [`MetricsExporter`] scrapes them in one of the text
//! formats listed in [`Format`].
//!
//! What an exporter decides is kept apart from what it does to the outside world. The modules
//! [`server`], [`push`] and [`report`] take decisions for an exporter that runs a web server, for
//! one that pushes to a gateway, and on what to log; sockets, timers and log sinks belong to
//! the caller.
pub mod collector;
pub mod exporter;
pub mod exposition;
pub mod format;
pub mod lines;
pub mod metrics;
pub mod push;
pub mod registry;
pub mod report;
pub mod server;
pub mod text;

pub use crate::collector::{
    BeforeScrapeError, CollectToRegistry, Collector, Global, LazyGlobalCollector,
};
pub use crate::exporter::MetricsExporter;
pub use crate::format::Format;
pub use crate::metrics::{
    Labelled, Metric, MetricDescriptor, MetricGroupDescriptor, MetricValue, Metrics, Unit,
};
pub use crate::registry::Registry;
