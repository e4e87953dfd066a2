# vetric

Collection of metrics in an app, and their export to Prometheus.

`src/` is a library verified with [Verus](https://github.com/verus-lang/verus):

| Module | Contents |
|---|---|
| `metrics` | metrics, their descriptors, and the `Metrics` trait of groups that can report them |
| `collector` | `Collector`, which produces metrics on each scrape, and a collector of lazily initialized globals |
| `registry` | `Registry`, which gathers collectors |
| `exposition` | the OpenMetrics text of metrics, as `prometheus_client` writes it |
| `format` | the export formats, their content types, and how their texts differ |
| `lines` | what can be said of exported text line by line |
| `exporter` | `MetricsExporter`, its responses to scrapes and its requests to a push gateway |
| `server` | decisions of an exporter that runs a web server |
| `push` | decisions of an exporter that pushes to a gateway: when to log, when to stop |
| `report` | log records on pushes that a gateway has refused |
| `text` | helpers on text |

Metrics hold integers: counters of `u64`, gauges of `i64`, and families of either by their labels.
The values of a family are exported in no particular order.

`app/` puts the library on the wire: it owns the sockets, timers, locks and log records.
`tests/` runs the library together with the crates that it calls.
