//! Collectors, which produce metrics each time these are scraped.
use std::marker::PhantomData;
use once_cell::sync::Lazy;
use prometheus_client::encoding::DescriptorEncoder;
use vstd::prelude::*;
use crate::exposition::encode_all;
use crate::metrics::{Metric, MetricGroupDescriptor, MetricView, Metrics};

verus! {

/// Lazily initialized value of `once_cell`.
#[verifier::external_type_specification]
#[verifier::external_body]
#[verifier::reject_recursive_types(T)]
#[verifier::reject_recursive_types(F)]
pub struct ExLazy<T, F>(Lazy<T, F>);

/// Error that can occur when calling [`Collector::before_scrape()`].
#[derive(Debug)]
pub struct BeforeScrapeError(());

impl BeforeScrapeError {
    /// Text that explains the error.
    pub const MESSAGE: &'static str = "Cannot set collector function: it is already set";

    /// Returns a text that explains the error.
    pub fn message(&self) -> (text: &'static str)
        ensures
            text@ == "Cannot set collector function: it is already set"@,
    {
        Self::MESSAGE
    }
}

/// Source of metrics that can be registered.
pub trait CollectToRegistry {
    /// Returns the description of the collected metrics.
    fn descriptor(&self) -> (group: MetricGroupDescriptor);

    /// Returns the metrics as they are now.
    fn collect(&self) -> (metrics: Vec<Metric>);
}

/// Whether a source may describe its metrics as the given group.
pub open spec fn may_describe<C: CollectToRegistry>(
    source: C,
    group: MetricGroupDescriptor,
) -> bool {
    call_ensures(C::descriptor, (&source,), group)
}

/// Whether the given metrics may be collected from a source. Different ones may be collected at
/// different times.
pub open spec fn may_collect<C: CollectToRegistry>(source: C, metrics: Seq<MetricView>) -> bool {
    exists|collected: Vec<Metric>| #[trigger]
        call_ensures(C::collect, (&source,), collected) && crate::metrics::views(collected@)
            == metrics
}

/// What may be collected from a source are the metrics that it returns, all of them and in their
/// order.
pub proof fn lemma_collection<C: CollectToRegistry>(source: C, metrics: Seq<MetricView>)
    requires
        may_collect(source, metrics),
    ensures
        exists|collected: Vec<Metric>| #[trigger]
            call_ensures(C::collect, (&source,), collected) && metrics.len() == collected@.len()
                && forall|i: int|
                0 <= i < collected@.len() ==> #[trigger] metrics[i] == collected@[i]@,
{
    let collected = choose|collected: Vec<Metric>| #[trigger]
        call_ensures(C::collect, (&source,), collected) && crate::metrics::views(collected@)
            == metrics;
    assert forall|i: int| 0 <= i < collected@.len() implies #[trigger] metrics[i]
        == collected@[i]@ by {
        assert(crate::metrics::views(collected@)[i] == collected@[i]@);
    }
}

/// Encodes the metrics of a group as they are now, with a full stop at the end of each help text.
pub fn encode_metrics<M: Metrics>(metrics: &M, encoder: &mut DescriptorEncoder<'_>) -> (result:
    Result<(), std::fmt::Error>)
    ensures
        exists|reported: Seq<MetricView>| #[trigger]
            crate::metrics::may_report(*metrics, reported) && crate::exposition::is_encoding(
                *old(encoder),
                *final(encoder),
                reported,
                result,
            ),
{
    let boxed_metrics = metrics.visit_metrics();
    let result = encode_all(&boxed_metrics, encoder);
    assert(crate::metrics::may_report(*metrics, crate::metrics::views(boxed_metrics@)));
    result
}

/// Encodes the metrics of a group that may be absent. An absent group leaves the encoder as it is.
pub fn encode_optional<M: Metrics>(
    metrics: Option<&M>,
    encoder: &mut DescriptorEncoder<'_>,
) -> (result: Result<(), std::fmt::Error>)
    ensures
        metrics is None ==> result is Ok && *final(encoder) == *old(encoder),
        metrics matches Some(group) ==> exists|reported: Seq<MetricView>| #[trigger]
            crate::metrics::may_report(*group, reported) && crate::exposition::is_encoding(
                *old(encoder),
                *final(encoder),
                reported,
                result,
            ),
{
    match metrics {
        Some(metrics) => encode_metrics(metrics, encoder),
        None => Ok(()),
    }
}

/// Returns the metrics of a group that may be absent. An absent group has none.
pub fn collect_optional<M: Metrics>(group: Option<&M>) -> (metrics: Vec<Metric>)
    ensures
        group is None ==> metrics@ == Seq::<Metric>::empty(),
        group matches Some(present) ==> crate::metrics::may_report(
            *present,
            crate::metrics::views(metrics@),
        ),
{
    match group {
        Some(group) => {
            let metrics = group.visit_metrics();
            assert(crate::metrics::may_report(*group, crate::metrics::views(metrics@)));
            metrics
        },
        None => Vec::new(),
    }
}

/// The producing function of a collector on which `hook` has been set: `hook`, unless there was
/// one before.
pub open spec fn set_once<H>(before: Option<H>, hook: H) -> Option<H> {
    match before {
        Some(first) => Some(first),
        None => Some(hook),
    }
}

/// The producing function of a collector on which `hooks` have been set one after the other.
pub open spec fn set_all<H>(before: Option<H>, hooks: Seq<H>) -> Option<H>
    decreases hooks.len(),
{
    if hooks.len() == 0 {
        before
    } else {
        set_once(set_all(before, hooks.drop_last()), hooks.last())
    }
}

/// Of all attempts to set the producing function of a new collector the first one succeeds, and
/// no other; it is the function of the first attempt that is called from there on.
pub proof fn lemma_hook_is_set_once<H>(hooks: Seq<H>, i: int)
    requires
        0 <= i < hooks.len(),
    ensures
        set_all(None, hooks.take(i)) is None <==> i == 0,
        set_all(None, hooks.take(i + 1)) == Some(hooks[0]),
        set_once(None, hooks[i]) == Some(hooks[i]),
        set_once(Some(hooks[0]), hooks[i]) == Some(hooks[0]),
    decreases i,
{
    let first = hooks.take(i + 1);
    assert(first.drop_last() =~= hooks.take(i));
    assert(first.last() == hooks[i]);
    if i > 0 {
        lemma_hook_is_set_once(hooks, i - 1);
    }
}

/// Collector allowing to define metrics dynamically.
///
/// In essence, a collector is a lazily initialized closure producing [`Metrics`] which is called
/// each time the metrics are scraped.
///
/// A collector lives as long as what it is registered in. To avoid resource leaks, the closure
/// should not lengthen the lifetime of the app state. Because [`Metrics`] is implemented for
/// `Option`s, it can return `None` if the tracked state is dropped.
#[verifier::reject_recursive_types(M)]
#[verifier::reject_recursive_types(H)]
pub struct Collector<M: Metrics, H: Fn() -> M> {
    inner: Option<H>,
    group: PhantomData<M>,
}

impl<M: Metrics, H: Fn() -> M> Collector<M, H> {
    /// The producing function, if it is set.
    pub closed spec fn hook(&self) -> Option<H> {
        self.inner
    }

    /// The producing function can be called, if it is set.
    #[verifier::type_invariant]
    spec fn can_be_called(&self) -> bool {
        self.inner matches Some(hook) ==> hook.requires(())
    }

    /// Whether the given metrics may be produced.
    pub open spec fn may_produce(&self, metrics: Seq<MetricView>) -> bool {
        match self.hook() {
            Some(hook) => exists|group: M| #[trigger]
                hook.ensures((), group) && crate::metrics::may_report(group, metrics),
            None => metrics == Seq::<MetricView>::empty(),
        }
    }

    /// Returns a text that shows the collector to a developer: whether the producing function
    /// is set.
    pub fn debug_text(&self) -> (text: &'static str)
        ensures
            text@ == (if self.hook() is Some {
                "Collector { inner: Some(\"_\") }"@
            } else {
                "Collector { inner: None }"@
            }),
    {
        match &self.inner {
            Some(_) => "Collector { inner: Some(\"_\") }",
            None => "Collector { inner: None }",
        }
    }

    /// Creates a new collector.
    pub fn new() -> (collector: Self)
        ensures
            collector.hook() is None,
    {
        Collector { inner: None, group: PhantomData }
    }

    /// Initializes the producing function for this collector. The function will be called each time
    /// the metrics are scraped.
    ///
    /// # Errors
    ///
    /// Returns an error if the producing function has been already set. That function stays.
    pub fn before_scrape(&mut self, hook: H) -> (result: Result<(), BeforeScrapeError>)
        requires
            hook.requires(()),
        ensures
            result is Ok <==> old(self).hook() is None,
            final(self).hook() == set_once(old(self).hook(), hook),
            result is Err ==> *final(self) == *old(self),
    {
        match &self.inner {
            Some(_) => Err(BeforeScrapeError(())),
            None => {
                self.inner = Some(hook);
                Ok(())
            },
        }
    }

    /// Encodes the metrics that the producing function returns. If that function is not set,
    /// nothing is encoded.
    pub fn encode(&self, encoder: &mut DescriptorEncoder<'_>) -> (result: Result<
        (),
        std::fmt::Error,
    >)
        ensures
            self.hook() is None ==> result is Ok && *final(encoder) == *old(encoder),
            exists|reported: Seq<MetricView>| #[trigger]
                self.may_produce(reported) && crate::exposition::is_encoding(
                    *old(encoder),
                    *final(encoder),
                    reported,
                    result,
                ),
    {
        proof {
            use_type_invariant(self);
        }
        match &self.inner {
            Some(hook) => {
                let metrics = hook();
                let result = encode_metrics(&metrics, encoder);
                proof {
                    let reported = choose|reported: Seq<MetricView>| #[trigger]
                        crate::metrics::may_report(metrics, reported)
                            && crate::exposition::is_encoding(
                            *old(encoder),
                            *encoder,
                            reported,
                            result,
                        );
                    assert(self.may_produce(reported));
                }
                result
            },
            None => {
                proof {
                    let none = Seq::<MetricView>::empty();
                    assert(self.may_produce(none));
                    let listed = Seq::<crate::exposition::ListedMetric>::empty();
                    assert(crate::exposition::lists(none, listed));
                    assert(crate::exposition::all_dotted(listed) =~= listed);
                    assert(crate::exposition::text_with(*encoder, listed)
                        =~= crate::exposition::written(*encoder));
                }
                Ok(())
            },
        }
    }
}

impl<M: Metrics, H: Fn() -> M> CollectToRegistry for Collector<M, H> {
    fn descriptor(&self) -> (group: MetricGroupDescriptor)
        ensures
            group == M::DESCRIPTOR,
    {
        M::DESCRIPTOR
    }

    fn collect(&self) -> (metrics: Vec<Metric>)
        ensures
            self.may_produce(crate::metrics::views(metrics@)),
    {
        proof {
            use_type_invariant(self);
        }
        match &self.inner {
            Some(hook) => {
                let group = hook();
                let metrics = group.visit_metrics();
                assert(crate::metrics::may_report(group, crate::metrics::views(metrics@)));
                metrics
            },
            None => {
                let metrics: Vec<Metric> = Vec::new();
                assert(crate::metrics::views(metrics@) =~= Seq::<MetricView>::empty());
                metrics
            },
        }
    }
}

/// What a collector produces is nothing if its producing function is not set, and otherwise all
/// the metrics, in their order, that a group returned by that function returns when it is visited.
pub proof fn lemma_production<M: Metrics, H: Fn() -> M>(
    collector: Collector<M, H>,
    metrics: Seq<MetricView>,
)
    requires
        collector.may_produce(metrics),
    ensures
        collector.hook() is None ==> metrics.len() == 0,
        collector.hook() matches Some(hook) ==> exists|group: M, visited: Vec<Metric>|
            hook.ensures((), group) && #[trigger] call_ensures(
                M::visit_metrics,
                (&group,),
                visited,
            ) && metrics.len() == visited@.len() && forall|i: int|
                0 <= i < visited@.len() ==> #[trigger] metrics[i] == visited@[i]@,
{
    if let Some(hook) = collector.hook() {
        let group = choose|group: M| #[trigger]
            hook.ensures((), group) && crate::metrics::may_report(group, metrics);
        crate::metrics::lemma_report(group, metrics);
        let visited = choose|visited: Vec<Metric>| #[trigger]
            call_ensures(M::visit_metrics, (&group,), visited) && metrics.len() == visited@.len()
                && forall|i: int|
                0 <= i < visited@.len() ==> #[trigger] metrics[i] == visited@[i]@;
        assert(call_ensures(M::visit_metrics, (&group,), visited));
    }
}

/// A collector has nothing to report if its producing function is not set, or if that function
/// returns `None`, as it does once the tracked state is dropped.
pub proof fn lemma_absent_state<M: Metrics, H: Fn() -> Option<M>>(
    collector: Collector<Option<M>, H>,
    metrics: Seq<MetricView>,
)
    requires
        collector.hook() matches Some(hook) ==> forall|state: Option<M>| #[trigger]
            hook.ensures((), state) ==> state is None,
        may_collect(collector, metrics),
    ensures
        metrics == Seq::<MetricView>::empty(),
{
    assert(collector.may_produce(metrics));
    if let Some(hook) = collector.hook() {
        let state = choose|state: Option<M>| #[trigger]
            hook.ensures((), state) && crate::metrics::may_report(state, metrics);
        assert(metrics =~= Seq::<MetricView>::empty());
    }
}

/// Globally defined group of metrics, which is initialized when it is first used.
#[verifier::reject_recursive_types(M)]
#[verifier::reject_recursive_types(F)]
pub struct Global<M, F: FnOnce() -> M>(pub Lazy<M, F>);

/// Lazy collector of [`Global`] metrics. Only exports metrics once they are initialized;
/// does not initialize metrics on its own.
#[verifier::reject_recursive_types(M)]
#[verifier::reject_recursive_types(F)]
pub struct LazyGlobalCollector<'a, M, F: FnOnce() -> M>(&'a Lazy<M, F>);

/// Returns the value of a lazily initialized variable, if it is initialized.
///
/// Specifies `Lazy::get`, which does not initialize the variable. Whether it is initialized depends
/// on what the rest of the program has done with it by the time of the call, so nothing is claimed
/// of the result.
pub assume_specification<T, F: FnOnce() -> T>[ Lazy::<T, F>::get ](this: &Lazy<T, F>) -> (value:
    Option<&T>)
;

/// Whether a lazily initialized variable may be found to hold `value`: nothing, if it is found not
/// to be initialized. A variable may be found to hold different things at different times.
pub open spec fn may_hold<T, F: FnOnce() -> T>(lazy: Lazy<T, F>, value: Option<&T>) -> bool {
    call_ensures(Lazy::<T, F>::get, (&lazy,), value)
}

/// Whether `after` is what becomes of the encoder `before` when the metrics of `group` are encoded
/// with the given result. An absent group leaves the encoder as it is.
pub open spec fn is_optional_encoding<M: Metrics>(
    group: Option<&M>,
    before: DescriptorEncoder<'_>,
    after: DescriptorEncoder<'_>,
    result: Result<(), std::fmt::Error>,
) -> bool {
    match group {
        Some(present) => exists|reported: Seq<MetricView>| #[trigger]
            crate::metrics::may_report(*present, reported) && crate::exposition::is_encoding(
                before,
                after,
                reported,
                result,
            ),
        None => result is Ok && after == before,
    }
}

/// Whether `metrics` may be reported for `group`. Nothing is for an absent group.
pub open spec fn is_optional_report<M: Metrics>(
    group: Option<&M>,
    metrics: Seq<MetricView>,
) -> bool {
    match group {
        Some(present) => crate::metrics::may_report(*present, metrics),
        None => metrics == Seq::<MetricView>::empty(),
    }
}

/// What a lazily initialized variable is found to hold is what is got from it. If it holds a group,
/// the metrics of that group are reported and encoded; otherwise none are, and the encoder is left
/// alone.
pub proof fn lemma_lazy_group<M: Metrics, F: FnOnce() -> M>(
    lazy: Lazy<M, F>,
    value: Option<&M>,
    metrics: Seq<MetricView>,
    before: DescriptorEncoder<'_>,
    after: DescriptorEncoder<'_>,
    result: Result<(), std::fmt::Error>,
)
    requires
        may_hold(lazy, value),
    ensures
        call_ensures(Lazy::<M, F>::get, (&lazy,), value),
        value is None && is_optional_report(value, metrics) ==> metrics.len() == 0,
        value is None && is_optional_encoding(value, before, after, result) ==> result is Ok
            && after == before,
        value matches Some(group) ==> (is_optional_report(value, metrics) ==> exists|
            visited: Vec<Metric>,
        | #[trigger]
            call_ensures(M::visit_metrics, (&*group,), visited) && metrics.len() == visited@.len()
                && forall|i: int|
                0 <= i < visited@.len() ==> #[trigger] metrics[i] == visited@[i]@),
        value matches Some(group) ==> (is_optional_encoding(value, before, after, result)
            ==> exists|reported: Seq<MetricView>| #[trigger]
            crate::metrics::may_report(*group, reported) && crate::exposition::is_encoding(
                before,
                after,
                reported,
                result,
            )),
{
    if let Some(group) = value {
        if is_optional_report(value, metrics) {
            crate::metrics::lemma_report(*group, metrics);
        }
    }
}

impl<'a, M: Metrics, F: FnOnce() -> M> LazyGlobalCollector<'a, M, F> {
    /// The variable whose metrics are exported.
    pub closed spec fn source(&self) -> Lazy<M, F> {
        *self.0
    }

    /// Creates a collector of the given metrics.
    pub fn new(metrics: &'a Global<M, F>) -> (collector: Self)
        ensures
            collector.source() == metrics.0,
    {
        LazyGlobalCollector(&metrics.0)
    }

    /// Encodes the metrics if they are initialized; otherwise encodes nothing.
    pub fn encode(&self, encoder: &mut DescriptorEncoder<'_>) -> (result: Result<
        (),
        std::fmt::Error,
    >)
        ensures
            exists|value: Option<&M>| #[trigger]
                may_hold(self.source(), value) && is_optional_encoding(
                    value,
                    *old(encoder),
                    *final(encoder),
                    result,
                ),
    {
        let value = Lazy::get(self.0);
        assert(may_hold(self.source(), value));
        encode_optional(value, encoder)
    }
}

impl<'a, M: Metrics, F: FnOnce() -> M> CollectToRegistry for LazyGlobalCollector<'a, M, F> {
    fn descriptor(&self) -> (group: MetricGroupDescriptor)
        ensures
            group == M::DESCRIPTOR,
    {
        M::DESCRIPTOR
    }

    fn collect(&self) -> (metrics: Vec<Metric>)
        ensures
            exists|value: Option<&M>| #[trigger]
                may_hold(self.source(), value) && is_optional_report(
                    value,
                    crate::metrics::views(metrics@),
                ),
    {
        let value = Lazy::get(self.0);
        assert(may_hold(self.source(), value));
        let metrics = collect_optional(value);
        assert(value is None ==> crate::metrics::views(metrics@) =~= Seq::<MetricView>::empty());
        metrics
    }
}

} // verus!
