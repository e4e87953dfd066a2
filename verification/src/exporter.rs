//! `MetricsExporter` and closely related types.
use std::sync::Arc;
use vstd::prelude::*;
use crate::collector::CollectToRegistry;
use crate::format::Format;
use crate::metrics::{MetricGroupDescriptor, MetricView};
use crate::registry::Registry;
use crate::text::{decimal_text, same_text};

verus! {

/// Number of crates that are named when the creation of an exporter is logged.
pub const SAMPLED_CRATE_COUNT: usize = 5;

/// Name and version of the crate that defines a group.
pub open spec fn crate_info(group: MetricGroupDescriptor) -> (Seq<char>, Seq<char>) {
    (group.crate_name@, group.crate_version@)
}

/// Names and versions of the crates that define groups.
pub open spec fn crate_infos(groups: Seq<MetricGroupDescriptor>) -> Seq<(Seq<char>, Seq<char>)> {
    groups.map_values(|g: MetricGroupDescriptor| crate_info(g))
}

/// The elements of a sequence in the order of their first occurrence.
pub open spec fn distinct<A>(elements: Seq<A>) -> Seq<A>
    decreases elements.len(),
{
    if elements.len() == 0 {
        Seq::empty()
    } else {
        let front = distinct(elements.drop_last());
        if front.contains(elements.last()) {
            front
        } else {
            front.push(elements.last())
        }
    }
}

/// The crates that are named when the creation of an exporter is logged: the first ones that define
/// a group, in the order of their first groups.
pub open spec fn sampled_crates(groups: Seq<MetricGroupDescriptor>) -> Seq<(Seq<char>, Seq<char>)> {
    let crates = distinct(crate_infos(groups));
    if crates.len() <= SAMPLED_CRATE_COUNT {
        crates
    } else {
        crates.take(SAMPLED_CRATE_COUNT as int)
    }
}

/// The text of a list of crates.
pub open spec fn crates_text(crates: Seq<(Seq<char>, Seq<char>)>) -> Seq<char>
    decreases crates.len(),
{
    if crates.len() == 0 {
        Seq::empty()
    } else {
        crates_text(crates.drop_last()) + crates.last().0 + " "@ + crates.last().1 + ", "@
    }
}

/// The message that is logged when an exporter of the given groups is created.
pub open spec fn stats_message(groups: Seq<MetricGroupDescriptor>) -> Seq<char> {
    "Created metrics exporter with "@ + crate::text::decimal(
        crate::registry::metric_total(groups),
    ) + " metrics in "@ + crate::text::decimal(groups.len()) + " groups from crates "@
        + crates_text(sampled_crates(groups)) + "..."@
}

proof fn lemma_distinct_prefix<A>(elements: Seq<A>, i: int)
    requires
        0 <= i <= elements.len(),
    ensures
        distinct(elements.take(i)).len() <= distinct(elements).len(),
        distinct(elements).take(distinct(elements.take(i)).len() as int) == distinct(
            elements.take(i),
        ),
    decreases elements.len(),
{
    if i == elements.len() {
        assert(elements.take(i) =~= elements);
        assert(distinct(elements).take(distinct(elements).len() as int) =~= distinct(elements));
    } else {
        let front = elements.drop_last();
        assert(front.take(i) =~= elements.take(i));
        lemma_distinct_prefix(front, i);
        let part = distinct(elements.take(i));
        assert(distinct(elements).take(part.len() as int) =~= distinct(front).take(
            part.len() as int,
        ));
    }
}

proof fn lemma_distinct<A>(elements: Seq<A>)
    ensures
        distinct(elements).no_duplicates(),
        forall|a: A| distinct(elements).contains(a) <==> #[trigger] elements.contains(a),
    decreases elements.len(),
{
    if elements.len() > 0 {
        let front = elements.drop_last();
        let last = elements.last();
        lemma_distinct(front);
        let crates = distinct(elements);
        assert forall|a: A| crates.contains(a) <==> #[trigger] elements.contains(a) by {
            if elements.contains(a) {
                let i = choose|i: int| 0 <= i < elements.len() && elements[i] == a;
                if i < front.len() {
                    assert(front[i] == a);
                    assert(front.contains(a));
                    let j = choose|j: int|
                        0 <= j < distinct(front).len() && distinct(front)[j] == a;
                    assert(crates[j] == a);
                } else {
                    if !distinct(front).contains(last) {
                        assert(crates[crates.len() - 1] == a);
                    }
                }
            }
            if crates.contains(a) {
                let j = choose|j: int| 0 <= j < crates.len() && crates[j] == a;
                if j < distinct(front).len() {
                    assert(distinct(front)[j] == a);
                    assert(distinct(front).contains(a));
                    assert(front.contains(a));
                    let i = choose|i: int| 0 <= i < front.len() && front[i] == a;
                    assert(elements[i] == a);
                } else {
                    assert(elements[elements.len() - 1] == a);
                }
            }
        }
        if !distinct(front).contains(last) {
            assert forall|i: int, j: int|
                0 <= i < crates.len() && 0 <= j < crates.len() && i != j implies crates[i]
                != crates[j] by {
                if i == crates.len() - 1 {
                    assert(distinct(front)[j] == crates[j]);
                } else if j == crates.len() - 1 {
                    assert(distinct(front)[i] == crates[i]);
                }
            }
        }
    }
}

/// No crate is named twice when the creation of an exporter is logged, and no more than
/// [`SAMPLED_CRATE_COUNT`] are. Those that are named define groups of the exporter; if they are
/// fewer than that number, they are all that do.
pub proof fn lemma_sampled_crates(groups: Seq<MetricGroupDescriptor>)
    ensures
        sampled_crates(groups).no_duplicates(),
        sampled_crates(groups).len() <= SAMPLED_CRATE_COUNT,
        forall|info: (Seq<char>, Seq<char>)| #[trigger]
            sampled_crates(groups).contains(info) ==> crate_infos(groups).contains(info),
        sampled_crates(groups).len() < SAMPLED_CRATE_COUNT ==> forall|
            info: (Seq<char>, Seq<char>),
        | #[trigger]
            crate_infos(groups).contains(info) ==> sampled_crates(groups).contains(info),
{
    let infos = crate_infos(groups);
    lemma_distinct(infos);
    let sampled = sampled_crates(groups);
    assert forall|info: (Seq<char>, Seq<char>)| #[trigger]
        sampled.contains(info) implies infos.contains(info) by {
        let i = choose|i: int| 0 <= i < sampled.len() && sampled[i] == info;
        assert(distinct(infos)[i] == info);
        assert(distinct(infos).contains(info));
    }
}

/// Where to stop so that the elements up to there are the first `count` distinct ones.
proof fn lemma_cut<A>(elements: Seq<A>, count: nat) -> (cut: int)
    requires
        distinct(elements).len() > count,
    ensures
        0 <= cut <= elements.len(),
        distinct(elements.take(cut)) == distinct(elements).take(count as int),
    decreases elements.len(),
{
    let front = elements.drop_last();
    let cut = if distinct(front).len() > count {
        lemma_cut(front, count)
    } else {
        front.len() as int
    };
    assert(front.take(cut) =~= elements.take(cut));
    assert(front.take(front.len() as int) =~= front);
    lemma_distinct_prefix(elements, front.len() as int);
    assert(elements.take(front.len() as int) =~= front);
    assert(distinct(front).take(count as int) =~= distinct(elements).take(count as int));
    assert(distinct(front).len() == count ==> distinct(front).take(count as int) =~= distinct(
        front,
    ));
    cut
}

proof fn lemma_crates_text(crates: Seq<(Seq<char>, Seq<char>)>)
    ensures
        crates_text(crates) == crates.map_values(
            |c: (Seq<char>, Seq<char>)| c.0 + " "@ + c.1 + ", "@,
        ).flatten(),
    decreases crates.len(),
{
    let texts = crates.map_values(|c: (Seq<char>, Seq<char>)| c.0 + " "@ + c.1 + ", "@);
    if crates.len() > 0 {
        let front = crates.drop_last();
        let front_texts = front.map_values(
            |c: (Seq<char>, Seq<char>)| c.0 + " "@ + c.1 + ", "@,
        );
        lemma_crates_text(front);
        assert(front_texts.push(texts.last()) =~= texts);
        front_texts.lemma_flatten_push(texts.last());
        assert(crates_text(crates) =~= front_texts.flatten() + texts.last());
    }
}

/// The message that is logged when an exporter is created tells how many metrics and groups there
/// are, and names crates that define groups, each once and with its version: all that define one of
/// the groups up to some group, which is the last of all groups unless five crates are named.
pub proof fn lemma_stats_message(groups: Seq<MetricGroupDescriptor>)
    ensures
        exists|named: Seq<(Seq<char>, Seq<char>)>, cut: int|
            {
                &&& #[trigger] named.no_duplicates()
                &&& named.len() <= 5
                &&& 0 <= cut <= groups.len()
                &&& named.len() == 5 || cut == groups.len()
                &&& forall|i: int|
                    0 <= i < (#[trigger] groups.take(cut)).len() ==> named.contains(
                        ((#[trigger] groups[i]).crate_name@, groups[i].crate_version@),
                    )
                &&& forall|info: (Seq<char>, Seq<char>)| #[trigger]
                    named.contains(info) ==> exists|i: int|
                        0 <= i < cut && info == (
                            (#[trigger] groups[i]).crate_name@,
                            groups[i].crate_version@,
                        )
                &&& stats_message(groups) == "Created metrics exporter with "@
                    + crate::text::decimal(crate::registry::metric_total(groups))
                    + " metrics in "@ + crate::text::decimal(groups.len())
                    + " groups from crates "@ + named.map_values(
                    |c: (Seq<char>, Seq<char>)| c.0 + " "@ + c.1 + ", "@,
                ).flatten() + "..."@
            },
{
    let infos = crate_infos(groups);
    let named = sampled_crates(groups);
    let cut = if distinct(infos).len() <= SAMPLED_CRATE_COUNT {
        infos.len() as int
    } else {
        lemma_cut(infos, SAMPLED_CRATE_COUNT as nat)
    };
    assert(infos.take(infos.len() as int) =~= infos);
    let part = infos.take(cut);
    assert(named =~= distinct(part));
    lemma_distinct(part);
    lemma_crates_text(named);
    assert forall|i: int| 0 <= i < groups.take(cut).len() implies named.contains(
        ((#[trigger] groups[i]).crate_name@, groups[i].crate_version@),
    ) by {
        assert(part[i] == crate_info(groups[i]));
        assert(part.contains(part[i]));
    }
    assert forall|info: (Seq<char>, Seq<char>)| #[trigger] named.contains(info) implies exists|
        i: int,
    |
        0 <= i < cut && info == ((#[trigger] groups[i]).crate_name@, groups[i].crate_version@) by {
        assert(part.contains(info));
        let i = choose|i: int| 0 <= i < part.len() && part[i] == info;
        assert(part[i] == crate_info(groups[i]));
    }
    assert(named.no_duplicates());
    assert(groups.take(cut).len() == cut);
}

/// Body of a scrape, together with its size in bytes.
#[derive(Debug)]
pub struct ScrapedBody {
    pub body: String,
    pub scraped_size: usize,
}

/// HTTP response with scraped metrics.
#[derive(Debug)]
pub struct RenderedResponse {
    pub status: u16,
    pub content_type: &'static str,
    pub body: String,
}

/// HTTP request that pushes scraped metrics to a gateway.
#[derive(Debug)]
pub struct PushRequest {
    pub method: &'static str,
    pub uri: String,
    pub content_type: &'static str,
    pub body: String,
}

impl ScrapedBody {
    /// Puts a text in front of the body, e.g. that of metrics which are kept elsewhere. An end marker
    /// stays at the end.
    pub fn with_front(self, front: &str) -> (scraped: Self)
        ensures
            scraped.body@ == front@ + self.body@,
            scraped.scraped_size == vstd::utf8::encode_utf8(scraped.body@).len(),
    {
        let mut body = front.to_owned();
        body.append(self.body.as_str());
        let scraped_size = body.as_str().as_bytes().len();
        ScrapedBody { body, scraped_size }
    }
}

impl RenderedResponse {
    /// Makes the response with metrics that were scraped in the given format.
    pub fn new(format: Format, body: String) -> (response: Self)
        ensures
            response.status == 200,
            response.content_type@ == format.content_type_spec(),
            response.body == body,
    {
        RenderedResponse { status: 200, content_type: format.content_type(), body }
    }
}

impl PushRequest {
    /// Makes the request that pushes scraped metrics to the gateway at `endpoint`.
    pub fn new(endpoint: String, body: String) -> (request: Self)
        ensures
            request.method@ == "PUT"@,
            request.uri == endpoint,
            request.content_type@ == Format::OPEN_METRICS_CONTENT_TYPE@,
            request.body == body,
    {
        PushRequest {
            method: "PUT",
            uri: endpoint,
            content_type: Format::OPEN_METRICS_CONTENT_TYPE,
            body,
        }
    }
}

/// What an exporter exports, and in which format.
#[derive(Debug)]
pub struct MetricsExporterInner<C> {
    pub registry: Arc<Registry<C>>,
    pub format: Format,
}

impl<C> Clone for MetricsExporterInner<C> {
    fn clone(&self) -> (copy: Self)
        ensures
            copy == *self,
    {
        MetricsExporterInner { registry: self.registry.clone(), format: self.format }
    }
}

impl<C: CollectToRegistry> MetricsExporterInner<C> {
    /// Whether `body` is a text of the metrics as they may be now.
    pub open spec fn may_render(&self, body: Seq<char>) -> bool {
        exists|metrics: Seq<MetricView>| #[trigger]
            self.registry.may_scrape(metrics) && self.format.is_exposition(metrics, body)
    }

    /// Scrapes the metrics.
    pub fn render_body(&self) -> (scraped: ScrapedBody)
        ensures
            self.may_render(scraped.body@),
            scraped.scraped_size == vstd::utf8::encode_utf8(scraped.body@).len(),
    {
        let mut buffer = String::new();
        let ghost empty = buffer@;
        // `unwrap()` is safe; writing to a string never fails.
        self.registry.encode(&mut buffer, self.format).unwrap();
        proof {
            let metrics = choose|metrics: Seq<MetricView>| #[trigger]
                self.registry.may_scrape(metrics) && exists|text: Seq<char>| #[trigger]
                    self.format.is_exposition(metrics, text) && buffer@ == empty + text;
            let text = choose|text: Seq<char>| #[trigger]
                self.format.is_exposition(metrics, text) && buffer@ == empty + text;
            assert(empty + text =~= text);
        }
        let scraped_size = buffer.as_str().as_bytes().len();
        ScrapedBody { body: buffer, scraped_size }
    }

    /// Scrapes the metrics and makes a response with them.
    pub fn render(&self) -> (response: RenderedResponse)
        ensures
            response.status == 200,
            response.content_type@ == self.format.content_type_spec(),
            self.may_render(response.body@),
    {
        RenderedResponse::new(self.format, self.render_body().body)
    }

    /// Scrapes the metrics and makes a request that pushes them to the gateway at `endpoint`.
    pub fn push_request(&self, endpoint: String) -> (request: PushRequest)
        ensures
            request.method@ == "PUT"@,
            request.uri == endpoint,
            request.content_type@ == Format::OPEN_METRICS_CONTENT_TYPE@,
            self.may_render(request.body@),
    {
        PushRequest::new(endpoint, self.render_body().body)
    }
}

/// A rendered body is the whole text of metrics that may be scraped now. It consists of the texts that
/// each of these metrics has on its own, one after the other and without their end markers, and of
/// one end marker at the end, which the Prometheus format does not have.
///
/// In the formats for Prometheus the latter is said of metrics that fit on lines.
pub proof fn lemma_rendered_metrics<C: CollectToRegistry>(
    exporter: MetricsExporterInner<C>,
    body: Seq<char>,
)
    requires
        exporter.may_render(body),
    ensures
        ({
            let end = if exporter.format is Prometheus {
                ""@
            } else {
                "# EOF\n"@
            };
            exists|metrics: Seq<MetricView>| #[trigger]
                exporter.registry.may_scrape(metrics) && exporter.format.is_exposition(
                    metrics,
                    body,
                ) && (exporter.format is OpenMetrics || (forall|i: int|
                    0 <= i < metrics.len() ==> crate::format::fits_on_lines(#[trigger] metrics[i]))
                    ==> exists|texts: Seq<Seq<char>>|
                    texts.len() == metrics.len() && (forall|i: int|
                        0 <= i < metrics.len() ==> exporter.format.is_exposition(
                            seq![metrics[i]],
                            #[trigger] texts[i] + end,
                        )) && body == #[trigger] texts.flatten() + end)
        }),
{
    let metrics = choose|metrics: Seq<MetricView>| #[trigger]
        exporter.registry.may_scrape(metrics) && exporter.format.is_exposition(metrics, body);
    if exporter.format is OpenMetrics || (forall|i: int|
        0 <= i < metrics.len() ==> crate::format::fits_on_lines(#[trigger] metrics[i])) {
        crate::format::lemma_exposition_of_each(exporter.format, metrics, body);
    }
}

/// A rendered body consists of what each of the registered collectors would give on its own, in
/// the order of their registration and without end markers, and of one end marker at the end, which
/// the Prometheus format does not have. No collector is left out, however many there are and however
/// long the body is.
///
/// In the formats for Prometheus this is said of metrics that fit on lines.
pub proof fn lemma_rendered_parts<C: CollectToRegistry>(
    exporter: MetricsExporterInner<C>,
    body: Seq<char>,
)
    requires
        exporter.may_render(body),
        exporter.format is OpenMetrics || forall|metrics: Seq<MetricView>, i: int|
            #[trigger] exporter.registry.may_scrape(metrics) && 0 <= i < metrics.len()
                ==> crate::format::fits_on_lines(#[trigger] metrics[i]),
    ensures
        ({
            let collectors = exporter.registry.collectors();
            let end = if exporter.format is Prometheus {
                ""@
            } else {
                "# EOF\n"@
            };
            exists|parts: Seq<Seq<MetricView>>, texts: Seq<Seq<char>>|
                {
                    &&& parts.len() == collectors.len()
                    &&& texts.len() == collectors.len()
                    &&& forall|i: int|
                        0 <= i < collectors.len() ==> crate::collector::may_collect(
                            collectors[i],
                            #[trigger] parts[i],
                        )
                    &&& forall|i: int|
                        0 <= i < collectors.len() ==> exporter.format.is_exposition(
                            parts[i],
                            #[trigger] texts[i] + end,
                        )
                    &&& #[trigger] exporter.registry.may_scrape(parts.flatten())
                    &&& body == #[trigger] texts.flatten() + end
                }
        }),
{
    let end = if exporter.format is Prometheus {
        ""@
    } else {
        "# EOF\n"@
    };
    let collectors = exporter.registry.collectors();
    let metrics = choose|metrics: Seq<MetricView>| #[trigger]
        exporter.registry.may_scrape(metrics) && exporter.format.is_exposition(metrics, body);
    crate::registry::lemma_scrape_parts(&*exporter.registry, metrics);
    let parts = choose|parts: Seq<Seq<MetricView>>|
        parts.len() == collectors.len() && (forall|i: int|
            0 <= i < parts.len() ==> crate::collector::may_collect(
                collectors[i],
                #[trigger] parts[i],
            )) && metrics == #[trigger] parts.flatten();
    assert(exporter.registry.may_scrape(parts.flatten()));
    crate::format::lemma_exposition_parts(exporter.format, parts, body);
    let texts = choose|texts: Seq<Seq<char>>|
        texts.len() == parts.len() && (forall|i: int|
            0 <= i < parts.len() ==> exporter.format.is_exposition(
                parts[i],
                #[trigger] texts[i] + end,
            )) && body == #[trigger] texts.flatten() + end;
    assert(body == texts.flatten() + end);
}

/// Metrics exporter to Prometheus.
///
/// An exporter scrapes metrics from a [`Registry`], which is provided using [`Self::new()`].
/// `C` is the type of the registered collectors, and `S` the type of the signal on which
/// the exporter shuts down.
pub struct MetricsExporter<C, S> {
    /// What is exported.
    pub inner: MetricsExporterInner<C>,
    /// Signal on which the exporter shuts down. Without it, the exporter never does.
    pub shutdown: Option<S>,
}

impl<C: CollectToRegistry, S> MetricsExporter<C, S> {
    /// Creates an exporter based on the provided metrics [`Registry`]. Note that the registry
    /// is in `Arc`, meaning it can be used elsewhere (e.g., to export data in another format).
    ///
    /// The exporter uses [`Format::OpenMetricsForPrometheus`], and does not shut down.
    pub fn new(registry: Arc<Registry<C>>) -> (exporter: Self)
        ensures
            exporter.inner.registry == registry,
            exporter.inner.format == Format::OpenMetricsForPrometheus,
            exporter.shutdown is None,
    {
        MetricsExporter {
            inner: MetricsExporterInner { registry, format: Format::OpenMetricsForPrometheus },
            shutdown: None,
        }
    }

    /// Returns the message to be logged when an exporter of a registry is created.
    pub fn log_metrics_stats(registry: &Registry<C>) -> (message: String)
        ensures
            message@ == stats_message(registry.groups()),
    {
        let groups = registry.descriptors().groups();
        let group_count = groups.len();
        let metric_count = registry.descriptors().metric_count();
        let unique_crates = sample_crates(groups);

        let mut message = "Created metrics exporter with ".to_owned();
        message.append(decimal_text(metric_count).as_str());
        message.append(" metrics in ");
        message.append(decimal_text(group_count as u128).as_str());
        message.append(" groups from crates ");
        let ghost start = message@;
        let ghost crates = infos_of(unique_crates@);
        let mut i: usize = 0;
        assert(crates.take(0) =~= Seq::empty());
        assert(start + crates_text(crates.take(0)) =~= start);
        while i < unique_crates.len()
            invariant
                0 <= i <= unique_crates@.len(),
                crates == infos_of(unique_crates@),
                message@ == start + crates_text(crates.take(i as int)),
            decreases unique_crates@.len() - i,
        {
            let ghost before = message@;
            let (crate_name, crate_version) = unique_crates[i];
            message.append(crate_name);
            message.append(" ");
            message.append(crate_version);
            message.append(", ");
            proof {
                let next = crates.take(i + 1);
                assert(next.drop_last() =~= crates.take(i as int));
                assert(next.last() == (crate_name@, crate_version@));
                assert(message@ =~= start + crates_text(next));
            }
            i += 1;
        }
        assert(crates.take(crates.len() as int) =~= crates);
        message.append("...");
        assert(message@ =~= stats_message(registry.groups()));
        message
    }

    /// Sets the export [`Format`]. By default, [`Format::OpenMetricsForPrometheus`] is used
    /// (i.e., OpenMetrics text format with minor changes so that it is fully parsed by Prometheus).
    ///
    /// See `Format` docs for more details on differences between export formats. Note that using
    /// [`Format::OpenMetrics`] is not fully supported by Prometheus at the time of writing.
    #[must_use]
    pub fn with_format(self, format: Format) -> (exporter: Self)
        ensures
            exporter.inner.format == format,
            exporter.inner.registry == self.inner.registry,
            exporter.shutdown == self.shutdown,
    {
        let mut exporter = self;
        exporter.inner.format = format;
        exporter
    }

    /// Configures graceful shutdown for the exporter.
    #[must_use]
    pub fn with_graceful_shutdown(self, shutdown: S) -> (exporter: Self)
        ensures
            exporter.shutdown == Some(shutdown),
            exporter.inner == self.inner,
    {
        let mut exporter = self;
        exporter.shutdown = Some(shutdown);
        exporter
    }
}

/// The views of names and versions.
pub open spec fn infos_of(crates: Seq<(&'static str, &'static str)>) -> Seq<
    (Seq<char>, Seq<char>),
> {
    crates.map_values(|c: (&'static str, &'static str)| (c.0@, c.1@))
}

/// Checks that a list of crates holds the given one.
fn names_crate(crates: &Vec<(&'static str, &'static str)>, name: &str, version: &str) -> (found:
    bool)
    ensures
        found == infos_of(crates@).contains((name@, version@)),
{
    let ghost infos = infos_of(crates@);
    let mut i: usize = 0;
    while i < crates.len()
        invariant
            0 <= i <= crates@.len(),
            infos == infos_of(crates@),
            forall|j: int| 0 <= j < i ==> infos[j] != (name@, version@),
        decreases crates@.len() - i,
    {
        let (crate_name, crate_version) = crates[i];
        if same_text(crate_name, name) && same_text(crate_version, version) {
            assert(infos[i as int] == (name@, version@));
            return true;
        }
        i += 1;
    }
    false
}

/// Returns the crates that are named when the creation of an exporter is logged.
fn sample_crates(groups: &Vec<MetricGroupDescriptor>) -> (crates: Vec<
    (&'static str, &'static str),
>)
    ensures
        infos_of(crates@) == sampled_crates(groups@),
{
    let ghost infos = crate_infos(groups@);
    let mut unique_crates: Vec<(&'static str, &'static str)> = Vec::new();
    let mut i: usize = 0;
    assert(infos_of(unique_crates@) =~= distinct(infos.take(0)));
    while i < groups.len()
        invariant
            0 <= i <= groups@.len(),
            infos == crate_infos(groups@),
            infos_of(unique_crates@) == distinct(infos.take(i as int)),
            unique_crates@.len() < SAMPLED_CRATE_COUNT,
        decreases groups@.len() - i,
    {
        let group = groups[i];
        proof {
            let next = infos.take(i + 1);
            assert(next.drop_last() =~= infos.take(i as int));
            assert(next.last() == crate_info(group));
        }
        if !names_crate(&unique_crates, group.crate_name, group.crate_version) {
            let ghost before = unique_crates@;
            unique_crates.push((group.crate_name, group.crate_version));
            assert(infos_of(unique_crates@) =~= infos_of(before).push(crate_info(group)));
            if unique_crates.len() >= SAMPLED_CRATE_COUNT {
                proof {
                    lemma_distinct_prefix(infos, i + 1);
                    assert(distinct(infos).take(distinct(infos).len() as int) =~= distinct(infos));
                }
                return unique_crates;
            }
        }
        i += 1;
    }
    assert(infos.take(infos.len() as int) =~= infos);
    unique_crates
}

} // verus!
