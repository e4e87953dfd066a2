//! Registries of metrics.
use vstd::prelude::*;
use crate::collector::{CollectToRegistry, Collector};
use crate::exposition::ListedMetric;
use crate::format::Format;
use crate::metrics::{Metric, MetricGroupDescriptor, MetricView, Metrics};

verus! {

/// The number of metrics in groups.
pub open spec fn metric_total(groups: Seq<MetricGroupDescriptor>) -> nat
    decreases groups.len(),
{
    if groups.len() == 0 {
        0
    } else {
        metric_total(groups.drop_last()) + groups.last().metrics@.len()
    }
}

/// The number of metrics in a group is that of its metrics, and the number of metrics in groups is
/// the sum of those in each of them.
pub proof fn lemma_metric_total(
    first: Seq<MetricGroupDescriptor>,
    second: Seq<MetricGroupDescriptor>,
    group: MetricGroupDescriptor,
)
    ensures
        metric_total(seq![group]) == group.metrics@.len(),
        metric_total(first + second) == metric_total(first) + metric_total(second),
        metric_total(first.push(group)) == metric_total(first) + group.metrics@.len(),
    decreases second.len(),
{
    reveal_with_fuel(metric_total, 2);
    assert(seq![group].drop_last() =~= Seq::empty());
    assert(first.push(group).drop_last() =~= first);
    if second.len() == 0 {
        assert(first + second =~= first);
    } else {
        assert((first + second).drop_last() =~= first + second.drop_last());
        lemma_metric_total(first, second.drop_last(), group);
    }
}

/// Descriptors of all metrics in a [`Registry`].
#[derive(Debug)]
pub struct RegisteredDescriptors {
    groups: Vec<MetricGroupDescriptor>,
}

impl View for RegisteredDescriptors {
    type V = Seq<MetricGroupDescriptor>;

    closed spec fn view(&self) -> Seq<MetricGroupDescriptor> {
        self.groups@
    }
}

impl RegisteredDescriptors {
    /// Returns the registered groups, in the order of their registration.
    pub fn groups(&self) -> (groups: &Vec<MetricGroupDescriptor>)
        ensures
            groups@ == self@,
    {
        &self.groups
    }

    /// Returns the number of registered metrics.
    pub fn metric_count(&self) -> (count: u128)
        ensures
            count == metric_total(self@),
    {
        let mut count: u128 = 0;
        let mut i: usize = 0;
        while i < self.groups.len()
            invariant
                0 <= i <= self@.len(),
                self@ == self.groups@,
                count == metric_total(self@.take(i as int)),
                count <= i * u64::MAX,
            decreases self@.len() - i,
        {
            let len = self.groups[i].metrics.len();
            proof {
                let next = self@.take(i + 1);
                assert(next.drop_last() =~= self@.take(i as int));
                assert(next.last() == self@[i as int]);
                assert(i * u64::MAX + len <= (i + 1) * u64::MAX && (i + 1) * u64::MAX <= u128::MAX)
                    by (nonlinear_arith)
                    requires
                        i < u64::MAX,
                        len <= u64::MAX,
                ;
            }
            count += len as u128;
            i += 1;
        }
        assert(self@.take(self@.len() as int) =~= self@);
        count
    }
}

/// Whether `metrics` may be collected from `collectors`, one after the other.
pub open spec fn may_collect_all<C: CollectToRegistry>(
    collectors: Seq<C>,
    metrics: Seq<MetricView>,
) -> bool
    decreases collectors.len(),
{
    if collectors.len() == 0 {
        metrics == Seq::<MetricView>::empty()
    } else {
        exists|split: int|
            0 <= split <= metrics.len() && may_collect_all(
                collectors.drop_last(),
                #[trigger] metrics.take(split),
            ) && crate::collector::may_collect(collectors.last(), metrics.skip(split))
    }
}

/// Registry of metrics, from which their state can be scraped.
#[derive(Debug)]
pub struct Registry<C> {
    descriptors: RegisteredDescriptors,
    collectors: Vec<C>,
}

impl<C> Registry<C> {
    /// The descriptions of the registered groups, in the order of their registration.
    pub closed spec fn groups(&self) -> Seq<MetricGroupDescriptor> {
        self.descriptors@
    }

    /// The registered collectors, in the order of their registration.
    pub closed spec fn collectors(&self) -> Seq<C> {
        self.collectors@
    }
}

impl<C: CollectToRegistry> Registry<C> {
    /// Validity of a registry: each collector has its description.
    pub open spec fn wf(&self) -> bool {
        &&& self.groups().len() == self.collectors().len()
        &&& forall|i: int|
            0 <= i < self.collectors().len() ==> crate::collector::may_describe(
                #[trigger] self.collectors()[i],
                self.groups()[i],
            )
    }

    /// Whether `metrics` may be scraped from the registry.
    pub open spec fn may_scrape(&self, metrics: Seq<MetricView>) -> bool {
        may_collect_all(self.collectors(), metrics)
    }

    /// Creates an empty registry.
    pub fn empty() -> (registry: Self)
        ensures
            registry.wf(),
            registry.groups() == Seq::<MetricGroupDescriptor>::empty(),
            registry.collectors() == Seq::<C>::empty(),
    {
        Registry {
            descriptors: RegisteredDescriptors { groups: Vec::new() },
            collectors: Vec::new(),
        }
    }

    /// Returns the descriptors of the registered metrics.
    pub fn descriptors(&self) -> (descriptors: &RegisteredDescriptors)
        ensures
            descriptors@ == self.groups(),
    {
        &self.descriptors
    }

    /// Registers a collector.
    pub fn register_collector(&mut self, collector: C)
        ensures
            old(self).wf() ==> final(self).wf(),
            final(self).collectors() == old(self).collectors().push(collector),
            exists|group: MetricGroupDescriptor| #[trigger]
                crate::collector::may_describe(collector, group) && final(self).groups()
                    == old(self).groups().push(group),
    {
        let group = collector.descriptor();
        self.descriptors.groups.push(group);
        self.collectors.push(collector);
        assert(crate::collector::may_describe(collector, group));
    }

    /// Gives access to a registered collector, e.g. to set its producing function after
    /// the registration. Returns `None` if there are not that many collectors.
    pub fn collector_mut(&mut self, index: usize) -> (collector: Option<&mut C>)
        ensures
            collector is Some <==> index < old(self).collectors().len(),
            collector is None ==> *final(self) == *old(self),
            collector matches Some(c) ==> *c == old(self).collectors()[index as int],
            collector matches Some(c) ==> final(self).collectors() == old(
                self,
            ).collectors().update(index as int, *final(c)),
            final(self).groups() == old(self).groups(),
            collector matches Some(c) ==> old(self).wf() && crate::collector::may_describe(
                *final(c),
                old(self).groups()[index as int],
            ) ==> final(self).wf(),
    {
        if index < self.collectors.len() {
            Some(&mut self.collectors[index])
        } else {
            None
        }
    }

    /// Creates a registry of the given collectors.
    pub fn collect(collectors: Vec<C>) -> (registry: Self)
        ensures
            registry.wf(),
            registry.collectors() == collectors@,
    {
        let ghost all = collectors@;
        let mut rest = collectors;
        let mut registry = Registry::empty();
        let ghost mut done: int = 0;
        assert(all.skip(0) =~= all);
        while rest.len() > 0
            invariant
                0 <= done <= all.len(),
                rest@ == all.skip(done),
                registry.wf(),
                registry.collectors() == all.take(done),
            decreases rest@.len(),
        {
            proof {
                assert(all.skip(done)[0] == all[done]);
                assert(all.take(done + 1) =~= all.take(done).push(all[done]));
                assert(all.skip(done).remove(0) =~= all.skip(done + 1));
            }
            let collector = rest.remove(0);
            registry.register_collector(collector);
            proof {
                done = done + 1;
            }
        }
        assert(all.take(done) =~= all);
        registry
    }

    /// Returns the metrics of all collectors as they are now.
    pub fn scrape(&self) -> (metrics: Vec<Metric>)
        ensures
            self.may_scrape(crate::metrics::views(metrics@)),
    {
        let mut metrics: Vec<Metric> = Vec::new();
        let mut i: usize = 0;
        assert(crate::metrics::views(metrics@) =~= Seq::<MetricView>::empty());
        assert(self.collectors().take(0) =~= Seq::<C>::empty());
        while i < self.collectors.len()
            invariant
                0 <= i <= self.collectors().len(),
                self.collectors() == self.collectors@,
                may_collect_all(
                    self.collectors().take(i as int),
                    crate::metrics::views(metrics@),
                ),
            decreases self.collectors().len() - i,
        {
            let ghost before = crate::metrics::views(metrics@);
            let mut collected = self.collectors[i].collect();
            let ghost added = crate::metrics::views(collected@);
            metrics.append(&mut collected);
            proof {
                let all = crate::metrics::views(metrics@);
                let next = self.collectors().take(i + 1);
                assert(next.drop_last() =~= self.collectors().take(i as int));
                assert(next.last() == self.collectors()[i as int]);
                let split = before.len() as int;
                assert(all.take(split) =~= before);
                assert(all.skip(split) =~= added);
                assert(crate::collector::may_collect(next.last(), added));
                assert(may_collect_all(next.drop_last(), all.take(split)));
                assert(may_collect_all(next, all));
            }
            i += 1;
        }
        assert(self.collectors().take(self.collectors().len() as int) =~= self.collectors());
        metrics
    }

    /// Appends the metrics as they are now to a buffer, in the given format. This always succeeds.
    pub fn encode(&self, buffer: &mut String, format: Format) -> (result: Result<
        (),
        std::fmt::Error,
    >)
        ensures
            result is Ok,
            exists|metrics: Seq<MetricView>| #[trigger]
                self.may_scrape(metrics) && exists|text: Seq<char>| #[trigger]
                    format.is_exposition(metrics, text) && final(buffer)@ == old(buffer)@ + text,
    {
        let metrics = self.scrape();
        match format.exposition(&metrics) {
            Ok(text) => {
                buffer.append(text.as_str());
                proof {
                    let scraped = crate::metrics::views(metrics@);
                    assert(self.may_scrape(scraped));
                    assert(format.is_exposition(scraped, text@));
                }
                Ok(())
            },
            Err(err) => Err(err),
        }
    }
}

/// A scrape reports the metrics of a newly registered collector behind those that could be scraped
/// before.
pub proof fn lemma_scrape_after_registration<C: CollectToRegistry>(
    before: Registry<C>,
    after: Registry<C>,
    collector: C,
    old_metrics: Seq<MetricView>,
    new_metrics: Seq<MetricView>,
)
    requires
        after.collectors() == before.collectors().push(collector),
        before.may_scrape(old_metrics),
        crate::collector::may_collect(collector, new_metrics),
    ensures
        after.may_scrape(old_metrics + new_metrics),
{
    let all = old_metrics + new_metrics;
    let split = old_metrics.len() as int;
    assert(after.collectors().drop_last() =~= before.collectors());
    assert(after.collectors().last() == collector);
    assert(all.take(split) =~= old_metrics);
    assert(all.skip(split) =~= new_metrics);
    assert(may_collect_all(after.collectors().drop_last(), all.take(split)));
}

/// The parts that were collected from each collector.
proof fn lemma_collected_parts<C: CollectToRegistry>(
    collectors: Seq<C>,
    metrics: Seq<MetricView>,
) -> (parts: Seq<Seq<MetricView>>)
    requires
        may_collect_all(collectors, metrics),
    ensures
        parts.len() == collectors.len(),
        forall|i: int|
            0 <= i < parts.len() ==> crate::collector::may_collect(
                collectors[i],
                #[trigger] parts[i],
            ),
        metrics == parts.flatten(),
    decreases collectors.len(),
{
    if collectors.len() == 0 {
        Seq::empty()
    } else {
        let split = choose|split: int|
            0 <= split <= metrics.len() && may_collect_all(
                collectors.drop_last(),
                #[trigger] metrics.take(split),
            ) && crate::collector::may_collect(collectors.last(), metrics.skip(split));
        let front = lemma_collected_parts(collectors.drop_last(), metrics.take(split));
        let last = metrics.skip(split);
        let parts = front.push(last);
        front.lemma_flatten_push(last);
        assert(metrics =~= metrics.take(split) + last);
        assert forall|i: int| 0 <= i < parts.len() implies crate::collector::may_collect(
            collectors[i],
            #[trigger] parts[i],
        ) by {
            if i < front.len() {
                assert(parts[i] == front[i]);
                assert(collectors.drop_last()[i] == collectors[i]);
            }
        }
        parts
    }
}

/// Whatever is scraped from a registry consists of one part for each registered collector, in their
/// order, and each part may be collected from its collector: none is left out.
pub proof fn lemma_scrape_parts<C: CollectToRegistry>(
    registry: &Registry<C>,
    metrics: Seq<MetricView>,
)
    requires
        registry.may_scrape(metrics),
    ensures
        exists|parts: Seq<Seq<MetricView>>|
            parts.len() == registry.collectors().len() && (forall|i: int|
                0 <= i < parts.len() ==> crate::collector::may_collect(
                    registry.collectors()[i],
                    #[trigger] parts[i],
                )) && metrics == #[trigger] parts.flatten(),
{
    let parts = lemma_collected_parts(registry.collectors(), metrics);
    assert(metrics == parts.flatten());
}

/// The length of a concatenation is the sum of the lengths.
proof fn lemma_flattened_len(parts: Seq<Seq<MetricView>>, counts: Seq<nat>)
    requires
        parts.len() == counts.len(),
        forall|i: int| 0 <= i < parts.len() ==> (#[trigger] parts[i]).len() == counts[i],
    ensures
        parts.flatten().len() == counts.fold_left(0, |sum: int, count: nat| sum + count),
    decreases parts.len(),
{
    if parts.len() > 0 {
        let front = parts.drop_last();
        assert forall|i: int| 0 <= i < front.len() implies (#[trigger] front[i]).len()
            == counts.drop_last()[i] by {
            assert(front[i] == parts[i]);
        }
        lemma_flattened_len(front, counts.drop_last());
        front.lemma_flatten_push(parts.last());
        assert(front.push(parts.last()) =~= parts);
        assert(parts[parts.len() - 1].len() == counts.last());
    }
}

/// If each collector reports a fixed number of metrics, a scrape has as many as all of them report
/// together.
pub proof fn lemma_scrape_count<C: CollectToRegistry>(
    registry: &Registry<C>,
    metrics: Seq<MetricView>,
    counts: Seq<nat>,
)
    requires
        registry.may_scrape(metrics),
        counts.len() == registry.collectors().len(),
        forall|i: int, collected: Seq<MetricView>|
            0 <= i < counts.len() && #[trigger] crate::collector::may_collect(
                registry.collectors()[i],
                collected,
            ) ==> collected.len() == counts[i],
    ensures
        metrics.len() == counts.fold_left(0, |sum: int, count: nat| sum + count),
{
    let parts = lemma_collected_parts(registry.collectors(), metrics);
    assert forall|i: int| 0 <= i < parts.len() implies (#[trigger] parts[i]).len()
        == counts[i] by {
        assert(crate::collector::may_collect(registry.collectors()[i], parts[i]));
    }
    lemma_flattened_len(parts, counts);
}

/// In a valid registry there is a description for each collector, in their order, which is one that
/// the collector gives of itself.
pub proof fn lemma_descriptions<C: CollectToRegistry>(registry: &Registry<C>, i: int)
    requires
        registry.wf(),
        0 <= i < registry.collectors().len() || 0 <= i < registry.groups().len(),
    ensures
        registry.groups().len() == registry.collectors().len(),
        call_ensures(C::descriptor, (&registry.collectors()[i],), registry.groups()[i]),
{
    assert(crate::collector::may_describe(registry.collectors()[i], registry.groups()[i]));
}

proof fn lemma_silent_collectors<C: CollectToRegistry>(
    collectors: Seq<C>,
    metrics: Seq<MetricView>,
)
    requires
        forall|i: int, collected: Seq<MetricView>|
            0 <= i < collectors.len() && #[trigger] crate::collector::may_collect(
                collectors[i],
                collected,
            ) ==> collected == Seq::<MetricView>::empty(),
        may_collect_all(collectors, metrics),
    ensures
        metrics == Seq::<MetricView>::empty(),
    decreases collectors.len(),
{
    if collectors.len() > 0 {
        let front = collectors.drop_last();
        let split = choose|split: int|
            0 <= split <= metrics.len() && may_collect_all(
                front,
                #[trigger] metrics.take(split),
            ) && crate::collector::may_collect(collectors.last(), metrics.skip(split));
        assert forall|i: int, collected: Seq<MetricView>|
            0 <= i < front.len() && #[trigger] crate::collector::may_collect(
                front[i],
                collected,
            ) implies collected == Seq::<MetricView>::empty() by {
            assert(crate::collector::may_collect(collectors[i], collected));
        }
        lemma_silent_collectors(front, metrics.take(split));
        assert(crate::collector::may_collect(
            collectors[collectors.len() - 1],
            metrics.skip(split),
        ));
        assert(metrics.take(split).len() == 0);
        assert(metrics.skip(split).len() == 0);
        assert(metrics =~= Seq::<MetricView>::empty());
    }
}

/// If no collector has anything to report, what is exported is the end marker alone, or nothing
/// in the Prometheus format.
pub proof fn lemma_silent_registry<C: CollectToRegistry>(
    registry: Registry<C>,
    metrics: Seq<MetricView>,
    format: Format,
    text: Seq<char>,
)
    requires
        forall|i: int, collected: Seq<MetricView>|
            0 <= i < registry.collectors().len() && #[trigger] crate::collector::may_collect(
                registry.collectors()[i],
                collected,
            ) ==> collected == Seq::<MetricView>::empty(),
        registry.may_scrape(metrics),
        format.is_exposition(metrics, text),
    ensures
        text == (if format == Format::Prometheus {
            Seq::<char>::empty()
        } else {
            "# EOF\n"@
        }),
{
    lemma_silent_collectors(registry.collectors(), metrics);
    let listed = choose|listed: Seq<ListedMetric>| #[trigger]
        crate::exposition::lists(metrics, listed) && text == format.exposition_text(listed);
    crate::format::lemma_prometheus_formats(listed);
    let none = Seq::<char>::empty();
    assert(crate::exposition::all_dotted(listed).len() == 0);
    assert(none + "# EOF\n"@ =~= "# EOF\n"@);
}

impl<M: Metrics, H: Fn() -> M> Collector<M, H> {
    /// Registers this collector.
    pub fn collect_to_registry(self, registry: &mut Registry<Self>)
        ensures
            old(registry).wf() ==> final(registry).wf(),
            final(registry).collectors() == old(registry).collectors().push(self),
            final(registry).groups() == old(registry).groups().push(M::DESCRIPTOR),
    {
        registry.register_collector(self);
    }
}

} // verus!
