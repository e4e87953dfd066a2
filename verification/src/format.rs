//! Text formats in which metrics can be exported.
use vstd::prelude::*;
use crate::exposition::{open_metrics_exposition, ListedMetric};
use crate::metrics::{LabelSet, Metric, MetricView, Samples};
use crate::text::chars_of;

verus! {

/// Format in which metrics are exported.
#[derive(Clone, Copy, Debug, PartialEq, Eq, Structural)]
pub enum Format {
    /// OpenMetrics text format.
    OpenMetrics,
    /// OpenMetrics text format with minor changes so that it is fully parsed by Prometheus:
    /// the value of a counter goes by the name of the counter, without the suffix `_total`.
    OpenMetricsForPrometheus,
    /// Prometheus text format. It differs from [`Self::OpenMetricsForPrometheus`] in that it has
    /// no end marker.
    Prometheus,
}

/// The number of characters in front of the first line end, or of all of them if there is none.
pub open spec fn line_len(text: Seq<char>) -> nat
    decreases text.len(),
{
    if text.len() == 0 || text[0] == '\n' {
        0
    } else {
        1 + line_len(text.drop_first())
    }
}

/// The counter to which the values behind a line belong, if any. `counter` is the one to which
/// the line itself belongs. A line that states the type of a metric starts a new one.
pub open spec fn counter_after(line: Seq<char>, counter: Option<Seq<char>>) -> Option<Seq<char>> {
    if "# TYPE "@.is_prefix_of(line) {
        let definition = line.skip("# TYPE "@.len() as int);
        if " counter"@.is_suffix_of(definition) {
            Some(definition.take(definition.len() - " counter"@.len()))
        } else {
            None
        }
    } else {
        counter
    }
}

/// Whether a line states a value under the name of a counter and the suffix `_total`.
pub open spec fn is_total_of(line: Seq<char>, name: Seq<char>) -> bool {
    let named = name + "_total"@;
    &&& named.is_prefix_of(line)
    &&& line.len() == named.len() || line[named.len() as int] == ' ' || line[named.len() as int]
        == '{'
}

/// A line of a counter with the suffix removed from the counter's name.
pub open spec fn without_total(line: Seq<char>, counter: Option<Seq<char>>) -> Seq<char> {
    match counter {
        Some(name) => if is_total_of(line, name) {
            name + line.skip((name + "_total"@).len() as int)
        } else {
            line
        },
        None => line,
    }
}

/// OpenMetrics text with the suffixes of counters removed line by line, and the end marker too
/// unless it is to be kept. `counter` is the counter to which the first line belongs.
pub open spec fn adapted(text: Seq<char>, counter: Option<Seq<char>>, keep_eof: bool) -> Seq<char>
    decreases text.len(),
{
    let end = line_len(text);
    let line = text.take(end as int);
    let dropped = line == "# EOF"@ && !keep_eof;
    let kept = if dropped {
        Seq::empty()
    } else {
        without_total(line, counter)
    };
    if end >= text.len() {
        kept
    } else {
        (if dropped {
            kept
        } else {
            kept.push('\n')
        }) + adapted(text.skip(end as int + 1), counter_after(line, counter), keep_eof)
    }
}

proof fn lemma_line_len(text: Seq<char>, end: int)
    requires
        0 <= end <= text.len(),
        forall|i: int| 0 <= i < end ==> text[i] != '\n',
        end == text.len() || text[end] == '\n',
    ensures
        line_len(text) == end,
    decreases text.len(),
{
    if end > 0 {
        let rest = text.drop_first();
        assert forall|i: int| 0 <= i < end - 1 implies rest[i] != '\n' by {
            assert(rest[i] == text[i + 1]);
        }
        lemma_line_len(rest, end - 1);
    }
}

/// Checks that a line starts with a prefix.
fn starts_with(line: &Vec<char>, prefix: &Vec<char>) -> (yes: bool)
    ensures
        yes == prefix@.is_prefix_of(line@),
{
    if prefix.len() > line.len() {
        return false;
    }
    let mut i: usize = 0;
    while i < prefix.len()
        invariant
            0 <= i <= prefix@.len() <= line@.len(),
            forall|j: int| 0 <= j < i ==> prefix@[j] == line@[j],
        decreases prefix@.len() - i,
    {
        if prefix[i] != line[i] {
            assert(line@.subrange(0, prefix@.len() as int)[i as int] != prefix@[i as int]);
            return false;
        }
        i += 1;
    }
    assert(prefix@ =~= line@.subrange(0, prefix@.len() as int));
    true
}

/// Copies a part of a text.
fn part(chars: &Vec<char>, from: usize, to: usize) -> (copy: Vec<char>)
    requires
        from <= to <= chars@.len(),
    ensures
        copy@ == chars@.subrange(from as int, to as int),
{
    let mut copy: Vec<char> = Vec::new();
    let mut i: usize = from;
    while i < to
        invariant
            from <= i <= to <= chars@.len(),
            copy@ == chars@.subrange(from as int, i as int),
        decreases to - i,
    {
        copy.push(chars[i]);
        assert(copy@ =~= chars@.subrange(from as int, i + 1));
        i += 1;
    }
    copy
}

/// Returns the counter to which the values behind a line belong.
fn next_counter(line: &Vec<char>, counter: Option<Vec<char>>) -> (next: Option<Vec<char>>)
    ensures
        next matches Some(name) ==> counter_after(line@, view_of(counter)) == Some(name@),
        next is None ==> counter_after(line@, view_of(counter)) is None,
{
    let type_prefix = chars_of("# TYPE ");
    let counter_suffix = chars_of(" counter");
    if !starts_with(line, &type_prefix) {
        return counter;
    }
    let definition = part(line, type_prefix.len(), line.len());
    assert(definition@ =~= line@.skip("# TYPE "@.len() as int));
    if definition.len() < counter_suffix.len() {
        return None;
    }
    let name_len: usize = definition.len() - counter_suffix.len();
    let tail = part(&definition, name_len, definition.len());
    if !starts_with(&tail, &counter_suffix) {
        assert(tail@ =~= definition@.subrange(name_len as int, definition@.len() as int));
        assert(counter_suffix@ != tail@) by {
            assert(tail@.subrange(0, tail@.len() as int) =~= tail@);
        }
        return None;
    }
    assert(tail@.subrange(0, tail@.len() as int) =~= tail@);
    let name = part(&definition, 0, name_len);
    assert(name@ =~= definition@.take(name_len as int));
    Some(name)
}

/// The view of an optional text.
spec fn view_of(text: Option<Vec<char>>) -> Option<Seq<char>> {
    match text {
        Some(chars) => Some(chars@),
        None => None,
    }
}

/// Returns the length of a counter's name, if the line states its value under that name and the
/// suffix `_total`.
fn total_name_len(line: &Vec<char>, counter: &Option<Vec<char>>) -> (len: Option<usize>)
    ensures
        len is Some <==> (*counter matches Some(name) && is_total_of(line@, name@)),
        len matches Some(l) ==> (*counter matches Some(name) && l == name@.len()),
{
    match counter {
        None => None,
        Some(name) => {
            let total = chars_of("_total");
            if line.len() < total.len() || line.len() - total.len() < name.len() {
                return None;
            }
            let named: usize = name.len() + total.len();
            let tail = part(line, name.len(), line.len());
            if starts_with(line, name) && starts_with(&tail, &total) && (line.len() == named
                || line[named] == ' ' || line[named] == '{') {
                assert(name@ + "_total"@ =~= line@.subrange(0, named as int)) by {
                    assert(name@ =~= line@.subrange(0, name@.len() as int));
                    assert(total@ =~= tail@.subrange(0, total@.len() as int));
                    assert forall|i: int| 0 <= i < total@.len() implies total@[i]
                        == line@[name@.len() + i] by {
                        assert(total@[i] == tail@.subrange(0, total@.len() as int)[i]);
                    }
                    assert forall|i: int| 0 <= i < name@.len() implies name@[i] == line@[i] by {
                        assert(name@[i] == line@.subrange(0, name@.len() as int)[i]);
                    }
                }
                Some(name.len())
            } else {
                proof {
                    if is_total_of(line@, name@) {
                        let whole = name@ + "_total"@;
                        assert(whole =~= line@.subrange(0, named as int));
                        assert(name@ =~= line@.subrange(0, name@.len() as int)) by {
                            assert forall|i: int| 0 <= i < name@.len() implies name@[i]
                                == line@[i] by {
                                assert(whole[i] == line@.subrange(0, named as int)[i]);
                            }
                        }
                        assert(total@ =~= tail@.subrange(0, total@.len() as int)) by {
                            assert forall|i: int| 0 <= i < total@.len() implies total@[i]
                                == tail@[i] by {
                                let j = name@.len() + i;
                                assert(whole[j] == line@.subrange(0, named as int)[j]);
                            }
                        }
                    }
                }
                None
            }
        },
    }
}

/// Appends a part of a text to a string.
fn push_part(out: &mut String, chars: &Vec<char>, from: usize, to: usize)
    requires
        from <= to <= chars@.len(),
    ensures
        final(out)@ == old(out)@ + chars@.subrange(from as int, to as int),
{
    let mut i: usize = from;
    assert(old(out)@ + chars@.subrange(from as int, from as int) =~= old(out)@);
    while i < to
        invariant
            from <= i <= to <= chars@.len(),
            out@ == old(out)@ + chars@.subrange(from as int, i as int),
        decreases to - i,
    {
        out.push(chars[i]);
        assert(out@ =~= old(out)@ + chars@.subrange(from as int, i + 1));
        i += 1;
    }
}

/// Removes the suffix `_total` from the names of counters in OpenMetrics text, and the end marker
/// unless it is to be kept.
fn adapt(text: &str, keep_eof: bool) -> (result: String)
    ensures
        result@ == adapted(text@, None, keep_eof),
{
    let chars = chars_of(text);
    let eof = chars_of("# EOF");
    let mut out = String::new();
    let mut counter: Option<Vec<char>> = None;
    let mut pos: usize = 0;
    assert(chars@.skip(0) =~= chars@);
    assert(out@ + adapted(chars@.skip(0), None, keep_eof) =~= adapted(chars@, None, keep_eof));
    loop
        invariant
            0 <= pos <= chars@.len(),
            chars@ == text@,
            eof@ == "# EOF"@,
            adapted(text@, None, keep_eof) == out@ + adapted(
                chars@.skip(pos as int),
                view_of(counter),
                keep_eof,
            ),
        decreases chars@.len() - pos,
    {
        let mut end: usize = pos;
        while end < chars.len() && chars[end] != '\n'
            invariant
                pos <= end <= chars@.len(),
                forall|i: int| pos <= i < end ==> chars@[i] != '\n',
            decreases chars@.len() - end,
        {
            end += 1;
        }
        let ghost rest = chars@.skip(pos as int);
        let ghost before = out@;
        let ghost len = end - pos;
        let line = part(&chars, pos, end);
        proof {
            assert forall|i: int| 0 <= i < len implies rest[i] != '\n' by {
                assert(rest[i] == chars@[pos + i]);
            }
            assert(end < chars@.len() ==> rest[len] == chars@[end as int]);
            lemma_line_len(rest, len);
            assert(rest.take(len) =~= line@);
        }
        let is_eof = line.len() == eof.len() && starts_with(&line, &eof);
        proof {
            assert(line@.subrange(0, line@.len() as int) =~= line@);
        }
        let dropped = is_eof && !keep_eof;
        if !dropped {
            match total_name_len(&line, &counter) {
                Some(name_len) => {
                    let rest_from: usize = name_len + chars_of("_total").len();
                    push_part(&mut out, &line, 0, name_len);
                    push_part(&mut out, &line, rest_from, line.len());
                    proof {
                        let name = counter->0@;
                        let named = name + "_total"@;
                        assert(line@.subrange(0, name_len as int) =~= name) by {
                            assert forall|i: int| 0 <= i < name_len implies line@[i] == name[i] by {
                                assert(named[i] == line@.subrange(0, named.len() as int)[i]);
                            }
                        }
                        assert(line@.subrange(rest_from as int, line@.len() as int) =~= line@.skip(
                            named.len() as int,
                        ));
                        assert(out@ =~= before + without_total(line@, view_of(counter)));
                    }
                },
                None => {
                    push_part(&mut out, &line, 0, line.len());
                    assert(line@.subrange(0, line@.len() as int) =~= line@);
                    assert(out@ =~= before + without_total(line@, view_of(counter)));
                },
            }
        } else {
            assert(out@ =~= before + Seq::<char>::empty());
        }
        if end == chars.len() {
            return out;
        }
        if !dropped {
            out.push('\n');
        }
        let ghost old_counter = view_of(counter);
        counter = next_counter(&line, counter);
        proof {
            assert(rest.skip(len + 1) =~= chars@.skip(end + 1));
            assert(view_of(counter) == counter_after(line@, old_counter));
            assert(out@ + adapted(chars@.skip(end + 1), view_of(counter), keep_eof) =~= before
                + adapted(rest, old_counter, keep_eof));
        }
        pos = end + 1;
    }
}

impl Format {
    /// `Content-Type` of the Prometheus text format.
    pub const PROMETHEUS_CONTENT_TYPE: &'static str = "text/plain; version=0.0.4; charset=utf-8";

    /// `Content-Type` of the OpenMetrics text format.
    pub const OPEN_METRICS_CONTENT_TYPE: &'static str =
        "application/openmetrics-text; version=1.0.0; charset=utf-8";

    /// The `Content-Type` of this format.
    pub open spec fn content_type_spec(self) -> Seq<char> {
        match self {
            Format::Prometheus => Self::PROMETHEUS_CONTENT_TYPE@,
            _ => Self::OPEN_METRICS_CONTENT_TYPE@,
        }
    }

    /// Returns the `Content-Type` of this format.
    pub fn content_type(self) -> (content_type: &'static str)
        ensures
            content_type@ == self.content_type_spec(),
    {
        match self {
            Format::Prometheus => Self::PROMETHEUS_CONTENT_TYPE,
            _ => Self::OPEN_METRICS_CONTENT_TYPE,
        }
    }

    /// The text of metrics and their values in this format.
    pub open spec fn exposition_text(self, metrics: Seq<ListedMetric>) -> Seq<char> {
        match self {
            Format::OpenMetrics => crate::exposition::complete_text(metrics),
            Format::OpenMetricsForPrometheus => adapted(
                crate::exposition::complete_text(metrics),
                None,
                true,
            ),
            Format::Prometheus => adapted(crate::exposition::complete_text(metrics), None, false),
        }
    }

    /// Whether `text` is the text of metrics in this format. The values of a family may come in
    /// any order.
    pub open spec fn is_exposition(self, metrics: Seq<MetricView>, text: Seq<char>) -> bool {
        exists|listed: Seq<ListedMetric>| #[trigger]
            crate::exposition::lists(metrics, listed) && text == self.exposition_text(listed)
    }

    /// Writes out metrics in this format. This always succeeds.
    pub fn exposition(self, metrics: &Vec<Metric>) -> (text: Result<String, std::fmt::Error>)
        ensures
            text matches Ok(t) && self.is_exposition(crate::metrics::views(metrics@), t@),
    {
        match open_metrics_exposition(metrics) {
            Ok(text) => {
                let ghost listed = choose|listed: Seq<ListedMetric>| #[trigger]
                    crate::exposition::lists(crate::metrics::views(metrics@), listed) && text@
                        == crate::exposition::complete_text(listed);
                let adapted_text = match self {
                    Format::OpenMetrics => text,
                    Format::OpenMetricsForPrometheus => adapt(text.as_str(), true),
                    Format::Prometheus => adapt(text.as_str(), false),
                };
                assert(adapted_text@ == self.exposition_text(listed));
                Ok(adapted_text)
            },
            Err(err) => Err(err),
        }
    }
}

/// Whether a text has no line end.
pub open spec fn on_one_line(text: Seq<char>) -> bool {
    forall|i: int| 0 <= i < text.len() ==> text[i] != '\n'
}

/// Whether each part of a metric fits on a line, and its name does not look like a comment.
pub open spec fn is_presentable(listed: ListedMetric) -> bool {
    &&& on_one_line(listed.metric.name)
    &&& on_one_line(listed.metric.help)
    &&& listed.metric.unit matches Some(unit) ==> on_one_line(unit)
    &&& listed.metric.full_name().len() > 0 ==> listed.metric.full_name()[0] != '#'
    &&& forall|i: int|
        0 <= i < listed.samples.len() ==> ((#[trigger] listed.samples[i]).labels matches Some(
            labels,
        ) ==> on_one_line(crate::exposition::labels_text(labels)))
}

/// A metric in the text format that Prometheus parses: the name of a counter has no suffix.
pub open spec fn prometheus_text(listed: ListedMetric) -> Seq<char> {
    listed.metric.head_text(Seq::empty()) + listed.value_lines(
        Seq::empty(),
        Seq::empty(),
        Seq::empty(),
        listed.samples.len(),
    )
}

/// Several metrics in the text format that Prometheus parses, one after the other.
pub open spec fn all_prometheus_text(metrics: Seq<ListedMetric>) -> Seq<char>
    decreases metrics.len(),
{
    if metrics.len() == 0 {
        Seq::empty()
    } else {
        all_prometheus_text(metrics.drop_last()) + prometheus_text(metrics.last())
    }
}

/// Whether the name of a counter, if there is one, does not look like a comment.
spec fn is_name(counter: Option<Seq<char>>) -> bool {
    counter matches Some(name) ==> (name.len() > 0 ==> name[0] != '#')
}

proof fn lemma_decimal_on_one_line(n: nat)
    ensures
        on_one_line(crate::text::decimal(n)),
    decreases n,
{
    if n >= 10 {
        lemma_decimal_on_one_line(n / 10);
    }
}

/// A line is adapted on its own.
proof fn lemma_adapted_line(
    line: Seq<char>,
    tail: Seq<char>,
    counter: Option<Seq<char>>,
    keep_eof: bool,
)
    requires
        on_one_line(line),
        line != "# EOF"@,
    ensures
        adapted(line + "\n"@ + tail, counter, keep_eof) == without_total(line, counter) + "\n"@
            + adapted(tail, counter_after(line, counter), keep_eof),
{
    reveal_strlit("\n");
    let text = line + "\n"@ + tail;
    lemma_line_len(text, line.len() as int);
    assert(text.take(line.len() as int) =~= line);
    assert(text.skip(line.len() as int + 1) =~= tail);
    assert(without_total(line, counter).push('\n') =~= without_total(line, counter) + "\n"@);
}

/// A comment line other than one with a type changes nothing and stays as it is.
proof fn lemma_comment_line(line: Seq<char>, counter: Option<Seq<char>>)
    requires
        line.len() > 2,
        line[0] == '#',
        line[2] != 'T',
        is_name(counter),
    ensures
        without_total(line, counter) == line,
        counter_after(line, counter) == counter,
{
    reveal_strlit("# TYPE ");
    reveal_strlit("_total");
    if "# TYPE "@.is_prefix_of(line) {
        assert(line.subrange(0, "# TYPE "@.len() as int)[2] == 'T');
    }
    if let Some(name) = counter {
        let named = name + "_total"@;
        if named.is_prefix_of(line) {
            assert(line.subrange(0, named.len() as int)[0] == line[0]);
            assert(named[0] == line[0]);
        }
    }
}

/// No line that describes a metric contains a line end.
pub(crate) proof fn lemma_lines(listed: ListedMetric)
    requires
        is_presentable(listed),
    ensures
        on_one_line(listed.metric.full_name()),
        on_one_line(listed.metric.help_line(Seq::empty())),
        on_one_line(listed.metric.type_line(Seq::empty())),
        listed.metric.unit matches Some(unit) ==> on_one_line(
            "# UNIT "@ + listed.metric.full_name() + " "@ + unit,
        ),
{
    reveal_strlit("# HELP ");
    reveal_strlit("# TYPE ");
    reveal_strlit("# UNIT ");
    reveal_strlit(" ");
    reveal_strlit("_");
    reveal_strlit("counter");
    reveal_strlit("gauge");
    assert(on_one_line(listed.metric.full_name()));
}

/// No line with a value contains a line end, or looks like a comment.
pub(crate) proof fn lemma_value_on_one_line(listed: ListedMetric, suffix: Seq<char>, i: int)
    requires
        is_presentable(listed),
        suffix == listed.metric.kind.suffix() || suffix == Seq::<char>::empty(),
        0 <= i < listed.samples.len(),
    ensures
        ({
            let value = listed.value_line(Seq::empty(), suffix, Seq::empty(), i);
            on_one_line(value) && value.len() > 0 && value[0] != '#'
        }),
{
    reveal_strlit(" ");
    reveal_strlit("{");
    reveal_strlit("}");
    reveal_strlit("_total");
    reveal_strlit("");
    let none = Seq::<char>::empty();
    let sample = listed.samples[i];
    let labels = crate::exposition::bracketed(none, sample.labels);
    lemma_lines(listed);
    lemma_decimal_on_one_line(sample.value as nat);
    lemma_decimal_on_one_line((-sample.value) as nat);
    assert(on_one_line(crate::text::signed_decimal(sample.value)));
    assert(on_one_line(labels) && (labels.len() > 0 ==> labels[0] != '#')) by {
        if let Some(own) = sample.labels {
            assert(labels =~= "{"@ + crate::exposition::labels_text(own) + "}"@);
        }
    }
    assert(none + listed.metric.full_name() =~= listed.metric.full_name());
}

/// A line with a type stays as it is. The values behind it are those of a counter if it says so.
proof fn lemma_type_line(metric: MetricView, counter: Option<Seq<char>>)
    requires
        is_name(counter),
    ensures
        metric.type_line(Seq::empty()) != "# EOF"@,
        without_total(metric.type_line(Seq::empty()), counter) == metric.type_line(Seq::empty()),
        counter_after(metric.type_line(Seq::empty()), counter) == (if metric.kind is Counter {
            Some(metric.full_name())
        } else {
            None
        }),
{
    reveal_strlit("# TYPE ");
    reveal_strlit("# EOF");
    reveal_strlit(" ");
    reveal_strlit("_total");
    reveal_strlit(" counter");
    reveal_strlit("counter");
    reveal_strlit("gauge");
    let name = metric.full_name();
    let typed = metric.type_line(Seq::empty());
    assert(Seq::<char>::empty() + name =~= name);
    assert(typed[0] == '#' && typed[2] == 'T');
    let definition = typed.skip("# TYPE "@.len() as int);
    assert(definition =~= name + " "@ + metric.kind.type_text());
    assert(typed.subrange(0, "# TYPE "@.len() as int) =~= "# TYPE "@);
    if metric.kind is Counter {
        assert(definition.subrange(
            definition.len() - " counter"@.len(),
            definition.len() as int,
        ) =~= " counter"@);
        assert(definition.take(definition.len() - " counter"@.len()) =~= name);
    } else if " counter"@.is_suffix_of(definition) {
        assert(definition.subrange(
            definition.len() - " counter"@.len(),
            definition.len() as int,
        )[7] == definition.last());
        assert(definition.last() == 'e');
    }
    if let Some(c) = counter {
        let named = c + "_total"@;
        if named.is_prefix_of(typed) {
            assert(typed.subrange(0, named.len() as int)[0] == typed[0]);
            assert(named[0] == typed[0]);
        }
    }
}

/// A line with a value loses the suffix of its counter.
proof fn lemma_value_line(listed: ListedMetric, i: int, counter: Option<Seq<char>>)
    requires
        is_presentable(listed),
        0 <= i < listed.samples.len(),
        counter == (if listed.metric.kind is Counter {
            Some(listed.metric.full_name())
        } else {
            None
        }),
    ensures
        ({
            let value = listed.value_line(
                Seq::empty(),
                listed.metric.kind.suffix(),
                Seq::empty(),
                i,
            );
            &&& value != "# EOF"@
            &&& counter_after(value, counter) == counter
            &&& without_total(value, counter) == listed.value_line(
                Seq::empty(),
                Seq::empty(),
                Seq::empty(),
                i,
            )
        }),
{
    reveal_strlit("# TYPE ");
    reveal_strlit("# EOF");
    reveal_strlit(" ");
    reveal_strlit("{");
    reveal_strlit("_total");
    reveal_strlit("");
    let none = Seq::<char>::empty();
    let name = listed.metric.full_name();
    let value = listed.value_line(none, listed.metric.kind.suffix(), none, i);
    let labels = crate::exposition::bracketed(none, listed.samples[i].labels);
    let number = crate::text::signed_decimal(listed.samples[i].value);
    lemma_value_on_one_line(listed, listed.metric.kind.suffix(), i);
    assert(none + name =~= name);
    if "# TYPE "@.is_prefix_of(value) {
        assert(value.subrange(0, "# TYPE "@.len() as int)[0] == value[0]);
    }
    if listed.metric.kind is Counter {
        let named = name + "_total"@;
        assert(value.subrange(0, named.len() as int) =~= named);
        assert(value.skip(named.len() as int) =~= labels + " "@ + number);
        assert(value[named.len() as int] == (labels + " "@ + number)[0]);
        assert(labels.len() > 0 ==> labels[0] == '{');
    }
    assert(without_total(value, counter) =~= listed.value_line(none, none, none, i));
}

/// The last line can be grouped with what follows it.
proof fn lemma_last_line(front: Seq<char>, line: Seq<char>, tail: Seq<char>)
    ensures
        front + line + "\n"@ + tail == front + (line + "\n"@ + tail),
{
    assert(front + line + "\n"@ + tail =~= front + (line + "\n"@ + tail));
}

/// The lines with values are adapted on their own.
proof fn lemma_adapted_values(
    listed: ListedMetric,
    count: nat,
    tail: Seq<char>,
    counter: Option<Seq<char>>,
    keep_eof: bool,
)
    requires
        is_presentable(listed),
        count <= listed.samples.len(),
        counter == (if listed.metric.kind is Counter {
            Some(listed.metric.full_name())
        } else {
            None
        }),
    ensures
        adapted(
            listed.value_lines(Seq::empty(), listed.metric.kind.suffix(), Seq::empty(), count)
                + tail,
            counter,
            keep_eof,
        ) == listed.value_lines(Seq::empty(), Seq::empty(), Seq::empty(), count) + adapted(
            tail,
            counter,
            keep_eof,
        ),
    decreases count,
{
    let none = Seq::<char>::empty();
    let suffix = listed.metric.kind.suffix();
    let lines = listed.value_lines(none, suffix, none, count);
    let plain_lines = listed.value_lines(none, none, none, count);
    let rest = adapted(tail, counter, keep_eof);
    if count == 0 {
        assert(lines + tail =~= tail);
        assert(plain_lines + rest =~= rest);
    } else {
        let value = listed.value_line(none, suffix, none, count - 1);
        let plain = listed.value_line(none, none, none, count - 1);
        let front = (count - 1) as nat;
        let last = value + "\n"@ + tail;
        lemma_value_on_one_line(listed, suffix, count - 1);
        lemma_value_line(listed, count - 1, counter);
        lemma_adapted_line(value, tail, counter, keep_eof);
        lemma_adapted_values(listed, front, last, counter, keep_eof);
        lemma_last_line(listed.value_lines(none, suffix, none, front), value, tail);
        lemma_last_line(listed.value_lines(none, none, none, front), plain, rest);
    }
}

/// The pieces of the text of a metric can be grouped from the back.
proof fn lemma_grouped(
    help: Seq<char>,
    typed: Seq<char>,
    unit: Seq<char>,
    values: Seq<char>,
    tail: Seq<char>,
)
    ensures
        help + "\n"@ + typed + "\n"@ + unit + values + tail == help + "\n"@ + (typed + "\n"@ + (unit
            + (values + tail))),
{
    assert(help + "\n"@ + typed + "\n"@ + unit + values + tail =~= help + "\n"@ + (typed + "\n"@ + (
    unit + (values + tail))));
}

/// The lines of a metric are adapted on their own.
proof fn lemma_adapted_metric(
    listed: ListedMetric,
    tail: Seq<char>,
    counter: Option<Seq<char>>,
    keep_eof: bool,
)
    requires
        is_presentable(listed),
        is_name(counter),
    ensures
        exists|next: Option<Seq<char>>| #[trigger]
            is_name(next) && adapted(
                listed.open_metrics_text(Seq::empty(), Seq::empty()) + tail,
                counter,
                keep_eof,
            ) == prometheus_text(listed) + adapted(tail, next, keep_eof),
{
    let none = Seq::<char>::empty();
    let metric = listed.metric;
    let count = listed.samples.len();
    let name = metric.full_name();
    let help = metric.help_line(none);
    let typed = metric.type_line(none);
    let values = listed.value_lines(none, metric.kind.suffix(), none, count);
    let next = if metric.kind is Counter {
        Some(name)
    } else {
        None
    };
    let end = values + tail;
    let after_type = metric.unit_line(none) + end;
    let after_help = typed + "\n"@ + after_type;
    lemma_lines(listed);
    assert(is_name(next));
    // The help line.
    assert(help.len() > 2 && help[0] == '#' && help[2] == 'H') by {
        reveal_strlit("# HELP ");
    }
    assert(help != "# EOF"@) by {
        reveal_strlit("# EOF");
    }
    lemma_comment_line(help, counter);
    lemma_adapted_line(help, after_help, counter, keep_eof);
    // The line with the type.
    lemma_type_line(metric, counter);
    lemma_adapted_line(typed, after_type, counter, keep_eof);
    // The line with the unit.
    assert(adapted(after_type, next, keep_eof) == metric.unit_line(none) + adapted(
        end,
        next,
        keep_eof,
    )) by {
        if let Some(unit) = metric.unit {
            let unit_line = "# UNIT "@ + name + " "@ + unit;
            assert(none + name =~= name);
            assert(unit_line.len() > 2 && unit_line[0] == '#' && unit_line[2] == 'U') by {
                reveal_strlit("# UNIT ");
            }
            assert(unit_line != "# EOF"@) by {
                reveal_strlit("# EOF");
            }
            assert(after_type =~= unit_line + "\n"@ + end);
            lemma_comment_line(unit_line, next);
            lemma_adapted_line(unit_line, end, next, keep_eof);
        } else {
            assert(after_type =~= end);
            assert(adapted(end, next, keep_eof) =~= none + adapted(end, next, keep_eof));
        }
    }
    // The lines with values.
    lemma_adapted_values(listed, count, tail, next, keep_eof);
    lemma_grouped(help, typed, metric.unit_line(none), values, tail);
    lemma_grouped(
        help,
        typed,
        metric.unit_line(none),
        listed.value_lines(none, none, none, count),
        adapted(tail, next, keep_eof),
    );
}

proof fn lemma_adapted_all(
    metrics: Seq<ListedMetric>,
    tail: Seq<char>,
    keep_eof: bool,
)
    requires
        forall|i: int| 0 <= i < metrics.len() ==> is_presentable(#[trigger] metrics[i]),
    ensures
        exists|next: Option<Seq<char>>| #[trigger]
            is_name(next) && adapted(
                crate::exposition::all_text(Seq::empty(), Seq::empty(), metrics) + tail,
                None,
                keep_eof,
            ) == all_prometheus_text(metrics) + adapted(tail, next, keep_eof),
    decreases metrics.len(),
{
    let none = Seq::<char>::empty();
    if metrics.len() == 0 {
        assert(crate::exposition::all_text(none, none, metrics) + tail =~= tail);
        assert(all_prometheus_text(metrics) + adapted(tail, None, keep_eof) =~= adapted(
            tail,
            None,
            keep_eof,
        ));
        assert(is_name(None));
    } else {
        let front = metrics.drop_last();
        let last = metrics.last();
        let text = last.open_metrics_text(none, none) + tail;
        assert forall|i: int| 0 <= i < front.len() implies is_presentable(#[trigger] front[i]) by {
            assert(front[i] == metrics[i]);
        }
        lemma_adapted_all(front, text, keep_eof);
        let middle = choose|next: Option<Seq<char>>| #[trigger]
            is_name(next) && adapted(
                crate::exposition::all_text(none, none, front) + text,
                None,
                keep_eof,
            ) == all_prometheus_text(front) + adapted(text, next, keep_eof);
        assert(is_presentable(metrics[metrics.len() - 1]));
        lemma_adapted_metric(last, tail, middle, keep_eof);
        let next = choose|next: Option<Seq<char>>| #[trigger]
            is_name(next) && adapted(text, middle, keep_eof) == prometheus_text(last) + adapted(
                tail,
                next,
                keep_eof,
            );
        assert(crate::exposition::all_text(none, none, metrics) + tail
            =~= crate::exposition::all_text(none, none, front) + text);
        assert(all_prometheus_text(metrics) + adapted(tail, next, keep_eof) =~= all_prometheus_text(
            front,
        ) + (prometheus_text(last) + adapted(tail, next, keep_eof)));
        assert(is_name(next));
    }
}

/// In the formats for Prometheus the value of a counter goes by the name of the counter, without
/// a suffix, and everything else about a metric is as in the OpenMetrics format. The end marker
/// comes last in the OpenMetrics variant, and does not occur in the other one.
///
/// This is said of metrics whose names, help texts and labels have no line ends.
pub proof fn lemma_prometheus_formats(metrics: Seq<ListedMetric>)
    requires
        forall|i: int| 0 <= i < metrics.len() ==> is_presentable(#[trigger] metrics[i]),
    ensures
        Format::OpenMetricsForPrometheus.exposition_text(metrics) == all_prometheus_text(
            crate::exposition::all_dotted(metrics),
        ) + "# EOF\n"@,
        Format::Prometheus.exposition_text(metrics) == all_prometheus_text(
            crate::exposition::all_dotted(metrics),
        ),
{
    reveal_strlit("# EOF\n");
    reveal_strlit("# EOF");
    reveal_strlit("_total");
    reveal_strlit(".");
    reveal_strlit("# TYPE ");
    let dotted = crate::exposition::all_dotted(metrics);
    assert forall|i: int| 0 <= i < dotted.len() implies is_presentable(#[trigger] dotted[i]) by {
        assert(is_presentable(metrics[i]));
        assert(dotted[i] == metrics[i].dotted());
        assert(dotted[i].metric.full_name() == metrics[i].metric.full_name());
    }
    let eof = "# EOF\n"@;
    let eof_line = "# EOF"@;
    lemma_line_len(eof, 5);
    assert(eof.take(5) =~= eof_line);
    assert(eof.skip(6) =~= Seq::<char>::empty());
    assert forall|next: Option<Seq<char>>| is_name(next) implies #[trigger] without_total(
        eof_line,
        next,
    ) == eof_line by {
        if let Some(name) = next {
            let named = name + "_total"@;
            if named.is_prefix_of(eof_line) {
                assert(eof_line.subrange(0, named.len() as int)[0] == eof_line[0]);
                assert(named[0] == eof_line[0]);
            }
        }
    }
    lemma_line_len(Seq::empty(), 0);
    assert forall|next: Option<Seq<char>>| is_name(next) implies #[trigger] adapted(eof, next, true)
        == eof && adapted(eof, next, false) == Seq::<char>::empty() by {
        let none = Seq::<char>::empty();
        let last = counter_after(eof_line, next);
        assert(last == next) by {
            if "# TYPE "@.is_prefix_of(eof_line) {
                assert(false);
            }
        }
        assert(none.take(0) =~= none);
        assert(without_total(none, next) == none);
        assert(adapted(none, next, true) == none);
        assert(adapted(none, next, false) == none);
        assert(without_total(eof_line, next) == eof_line);
        assert(eof_line.push('\n') + none =~= eof);
        assert(none + none =~= none);
    }
    lemma_adapted_all(dotted, eof, true);
    lemma_adapted_all(dotted, eof, false);
    let text = crate::exposition::all_text(Seq::empty(), Seq::empty(), dotted) + eof;
    let kept = choose|next: Option<Seq<char>>| #[trigger]
        is_name(next) && adapted(text, None, true) == all_prometheus_text(dotted) + adapted(
            eof,
            next,
            true,
        );
    let left = choose|next: Option<Seq<char>>| #[trigger]
        is_name(next) && adapted(text, None, false) == all_prometheus_text(dotted) + adapted(
            eof,
            next,
            false,
        );
    assert(adapted(eof, kept, true) == eof);
    assert(adapted(eof, left, true) == eof);
    assert(adapted(eof, left, false) =~= Seq::<char>::empty());
    assert(all_prometheus_text(dotted) + Seq::<char>::empty() =~= all_prometheus_text(dotted));
}

/// Whether each part of a metric fits on a line, and its name does not look like a comment.
pub open spec fn fits_on_lines(metric: MetricView) -> bool {
    &&& on_one_line(metric.name)
    &&& on_one_line(metric.help)
    &&& metric.unit matches Some(unit) ==> on_one_line(unit)
    &&& metric.name.len() > 0 ==> metric.name[0] != '#'
    &&& metric.samples matches Samples::Family(values) ==> forall|own: LabelSet, l: int|
        #[trigger] values.contains_key(own) && 0 <= l < own.len() ==> on_one_line(
            (#[trigger] own[l]).0,
        ) && on_one_line(own[l].1)
}

/// A metric fits on lines if there are no line ends in its name, its help text, its unit and its
/// labels, and if its name does not start with a number sign.
pub proof fn lemma_fits_on_lines(metric: MetricView)
    requires
        !metric.name.contains('\n'),
        !metric.help.contains('\n'),
        metric.unit matches Some(unit) ==> !unit.contains('\n'),
        metric.name.len() > 0 ==> metric.name[0] != '#',
        metric.samples matches Samples::Family(values) ==> forall|own: LabelSet, l: int|
            #[trigger] values.contains_key(own) && 0 <= l < own.len() ==> !(
            #[trigger] own[l]).0.contains('\n') && !own[l].1.contains('\n'),
    ensures
        fits_on_lines(metric),
{
    assert forall|text: Seq<char>| !(#[trigger] text.contains('\n')) implies on_one_line(text) by {}
    if let Samples::Family(values) = metric.samples {
        assert forall|own: LabelSet, l: int|
            #[trigger] values.contains_key(own) && 0 <= l < own.len() implies on_one_line(
            (#[trigger] own[l]).0,
        ) && on_one_line(own[l].1) by {
            assert(!own[l].0.contains('\n') && !own[l].1.contains('\n'));
        }
    }
}

proof fn lemma_labels_on_one_line(own: LabelSet)
    requires
        forall|l: int|
            0 <= l < own.len() ==> on_one_line((#[trigger] own[l]).0) && on_one_line(own[l].1),
    ensures
        on_one_line(crate::exposition::labels_text(own)),
    decreases own.len(),
{
    if own.len() > 0 {
        let front = own.drop_last();
        assert forall|l: int| 0 <= l < front.len() implies on_one_line((#[trigger] front[l]).0)
            && on_one_line(front[l].1) by {
            assert(front[l] == own[l]);
        }
        lemma_labels_on_one_line(front);
        assert(own[own.len() - 1] == own.last());
        reveal_strlit(",");
        reveal_strlit("=\"");
        reveal_strlit("\"");
    }
}

proof fn lemma_presentable(metrics: Seq<MetricView>, listed: Seq<ListedMetric>)
    requires
        crate::exposition::lists(metrics, listed),
        forall|i: int| 0 <= i < metrics.len() ==> fits_on_lines(#[trigger] metrics[i]),
    ensures
        forall|i: int| 0 <= i < listed.len() ==> is_presentable(#[trigger] listed[i]),
{
    reveal_strlit("_");
    assert forall|i: int| 0 <= i < listed.len() implies is_presentable(#[trigger] listed[i]) by {
        let metric = metrics[i];
        let samples = listed[i].samples;
        assert(listed[i].metric == metric);
        assert(fits_on_lines(metric));
        assert(crate::exposition::is_listing(metric.samples, samples));
        assert forall|k: int| 0 <= k < samples.len() implies ((
        #[trigger] samples[k]).labels matches Some(labels) ==> on_one_line(
            crate::exposition::labels_text(labels),
        )) by {
            if let Samples::Family(values) = metric.samples {
                let own = samples[k].labels->0;
                assert(values.contains_pair(own, samples[k].value));
                assert(values.contains_key(own));
                assert forall|l: int| 0 <= l < own.len() implies on_one_line(
                    (#[trigger] own[l]).0,
                ) && on_one_line(own[l].1) by {
                    assert(values.contains_key(own));
                }
                lemma_labels_on_one_line(own);
            }
        }
    }
}

/// What marks the end of a text.
spec fn end_marker(format: Format) -> Seq<char> {
    if format is Prometheus {
        ""@
    } else {
        "# EOF\n"@
    }
}

/// The text of metrics in front of the end marker.
spec fn unmarked_text(format: Format, listed: Seq<ListedMetric>) -> Seq<char> {
    if format is OpenMetrics {
        crate::exposition::all_text(
            Seq::empty(),
            Seq::empty(),
            crate::exposition::all_dotted(listed),
        )
    } else {
        all_prometheus_text(crate::exposition::all_dotted(listed))
    }
}

proof fn lemma_unmarked_text(format: Format, listed: Seq<ListedMetric>)
    requires
        format is OpenMetrics || forall|i: int|
            0 <= i < listed.len() ==> is_presentable(#[trigger] listed[i]),
    ensures
        format.exposition_text(listed) == unmarked_text(format, listed) + end_marker(format),
{
    reveal_strlit("");
    if !(format is OpenMetrics) {
        lemma_prometheus_formats(listed);
    }
    if format is Prometheus {
        assert(unmarked_text(format, listed) + end_marker(format) =~= unmarked_text(
            format,
            listed,
        ));
    }
}

proof fn lemma_unmarked_concat(
    format: Format,
    first: Seq<ListedMetric>,
    second: Seq<ListedMetric>,
)
    ensures
        unmarked_text(format, first + second) == unmarked_text(format, first) + unmarked_text(
            format,
            second,
        ),
    decreases second.len(),
{
    let both = first + second;
    if second.len() == 0 {
        assert(both =~= first);
        assert(crate::exposition::all_dotted(second).len() == 0);
        assert(unmarked_text(format, first) + unmarked_text(format, second) =~= unmarked_text(
            format,
            first,
        ));
    } else {
        let front = second.drop_last();
        lemma_unmarked_concat(format, first, front);
        assert(crate::exposition::all_dotted(both).drop_last()
            =~= crate::exposition::all_dotted(first + front));
        assert(crate::exposition::all_dotted(second).drop_last()
            =~= crate::exposition::all_dotted(front));
        assert(crate::exposition::all_dotted(both).last() == crate::exposition::all_dotted(
            second,
        ).last());
        assert(unmarked_text(format, both) =~= unmarked_text(format, first) + unmarked_text(
            format,
            second,
        ));
    }
}

/// The texts of parts of metrics, one by one.
proof fn lemma_part_texts(
    format: Format,
    parts: Seq<Seq<MetricView>>,
    listed: Seq<ListedMetric>,
) -> (texts: Seq<Seq<char>>)
    requires
        crate::exposition::lists(parts.flatten(), listed),
        format is OpenMetrics || forall|i: int|
            0 <= i < listed.len() ==> is_presentable(#[trigger] listed[i]),
    ensures
        texts.len() == parts.len(),
        forall|i: int|
            0 <= i < parts.len() ==> format.is_exposition(
                parts[i],
                #[trigger] texts[i] + end_marker(format),
            ),
        unmarked_text(format, listed) == texts.flatten(),
    decreases parts.len(),
{
    if parts.len() == 0 {
        assert(crate::exposition::all_dotted(listed).len() == 0);
        Seq::empty()
    } else {
        let front = parts.drop_last();
        let last = parts.last();
        front.lemma_flatten_push(last);
        assert(front.push(last) =~= parts);
        let split = front.flatten().len() as int;
        let all = parts.flatten();
        let first = listed.take(split);
        let second = listed.skip(split);
        assert(listed =~= first + second);
        assert forall|i: int| 0 <= i < first.len() implies (#[trigger] first[i]).metric
            == front.flatten()[i] && crate::exposition::is_listing(
            front.flatten()[i].samples,
            first[i].samples,
        ) && (format is OpenMetrics || is_presentable(first[i])) by {
            assert(first[i] == listed[i]);
            assert(all[i] == front.flatten()[i]);
        }
        assert forall|i: int| 0 <= i < second.len() implies (#[trigger] second[i]).metric == last[i]
            && crate::exposition::is_listing(last[i].samples, second[i].samples) && (
        format is OpenMetrics || is_presentable(second[i])) by {
            assert(second[i] == listed[split + i]);
            assert(all[split + i] == last[i]);
        }
        let front_texts = lemma_part_texts(format, front, first);
        let text = unmarked_text(format, second);
        let texts = front_texts.push(text);
        lemma_unmarked_concat(format, first, second);
        lemma_unmarked_text(format, second);
        assert(crate::exposition::lists(last, second));
        assert(format.is_exposition(last, text + end_marker(format)));
        front_texts.lemma_flatten_push(text);
        assert forall|i: int| 0 <= i < parts.len() implies format.is_exposition(
            parts[i],
            #[trigger] texts[i] + end_marker(format),
        ) by {
            if i < front.len() {
                assert(texts[i] == front_texts[i]);
                assert(front[i] == parts[i]);
            }
        }
        texts
    }
}

/// The text of metrics consists of the texts that any parts of them would have on their own, one
/// after the other and without their end markers, and of one end marker at the end, which
/// the Prometheus format does not have. Nothing is left out, however long the text is.
///
/// In the formats for Prometheus this is said of metrics that fit on lines.
pub proof fn lemma_exposition_parts(
    format: Format,
    parts: Seq<Seq<MetricView>>,
    text: Seq<char>,
)
    requires
        format.is_exposition(parts.flatten(), text),
        format is OpenMetrics || forall|i: int|
            0 <= i < parts.flatten().len() ==> fits_on_lines(#[trigger] parts.flatten()[i]),
    ensures
        ({
            let end = if format is Prometheus {
                ""@
            } else {
                "# EOF\n"@
            };
            exists|texts: Seq<Seq<char>>|
                texts.len() == parts.len() && (forall|i: int|
                    0 <= i < parts.len() ==> format.is_exposition(
                        parts[i],
                        #[trigger] texts[i] + end,
                    )) && text == #[trigger] texts.flatten() + end
        }),
{
    let metrics = parts.flatten();
    let listed = choose|listed: Seq<ListedMetric>| #[trigger]
        crate::exposition::lists(metrics, listed) && text == format.exposition_text(listed);
    if !(format is OpenMetrics) {
        assert forall|i: int| 0 <= i < metrics.len() implies fits_on_lines(
            #[trigger] metrics[i],
        ) by {
            assert(fits_on_lines(parts.flatten()[i]));
        }
        lemma_presentable(metrics, listed);
    }
    lemma_unmarked_text(format, listed);
    let texts = lemma_part_texts(format, parts, listed);
    assert(text == texts.flatten() + end_marker(format));
}

/// Parts of one element each.
proof fn lemma_flatten_singletons(metrics: Seq<MetricView>)
    ensures
        metrics.map_values(|m: MetricView| seq![m]).flatten() == metrics,
    decreases metrics.len(),
{
    let parts = metrics.map_values(|m: MetricView| seq![m]);
    if metrics.len() > 0 {
        let front = metrics.drop_last();
        let front_parts = front.map_values(|m: MetricView| seq![m]);
        lemma_flatten_singletons(front);
        assert(front_parts.push(parts.last()) =~= parts);
        front_parts.lemma_flatten_push(parts.last());
        assert(metrics =~= front + parts.last());
    }
}

/// The text of metrics consists of the texts that each of them would have on its own, one after
/// the other and without their end markers, and of one end marker at the end.
pub proof fn lemma_exposition_of_each(format: Format, metrics: Seq<MetricView>, text: Seq<char>)
    requires
        format.is_exposition(metrics, text),
        format is OpenMetrics || forall|i: int|
            0 <= i < metrics.len() ==> fits_on_lines(#[trigger] metrics[i]),
    ensures
        ({
            let end = if format is Prometheus {
                ""@
            } else {
                "# EOF\n"@
            };
            exists|texts: Seq<Seq<char>>|
                texts.len() == metrics.len() && (forall|i: int|
                    0 <= i < metrics.len() ==> format.is_exposition(
                        seq![metrics[i]],
                        #[trigger] texts[i] + end,
                    )) && text == #[trigger] texts.flatten() + end
        }),
{
    let end = if format is Prometheus {
        ""@
    } else {
        "# EOF\n"@
    };
    let parts = metrics.map_values(|m: MetricView| seq![m]);
    lemma_flatten_singletons(metrics);
    lemma_exposition_parts(format, parts, text);
    let texts = choose|texts: Seq<Seq<char>>|
        texts.len() == parts.len() && (forall|i: int|
            0 <= i < parts.len() ==> format.is_exposition(parts[i], #[trigger] texts[i] + end))
            && text == #[trigger] texts.flatten() + end;
    assert forall|i: int| 0 <= i < metrics.len() implies format.is_exposition(
        seq![metrics[i]],
        #[trigger] texts[i] + end,
    ) by {
        assert(parts[i] == seq![metrics[i]]);
    }
}

/// A metric on its own is written as a line with its help text, to which a full stop is added,
/// a line with its type, and a line with its unit if it has one, followed by a line with its value,
/// or one for each label set of a family with the value that it has under these labels. The value
/// of a counter goes by its name and the suffix `_total` in the OpenMetrics format, and by its name
/// alone in the formats for Prometheus. The end marker comes last, except in the Prometheus format.
pub proof fn lemma_exposition_of_one(format: Format, metric: MetricView, text: Seq<char>)
    requires
        format.is_exposition(seq![metric], text),
        format is OpenMetrics || fits_on_lines(metric),
    ensures
        ({
            let end = if format is Prometheus {
                ""@
            } else {
                "# EOF\n"@
            };
            let name = match metric.unit {
                Some(unit) => metric.name + "_"@ + unit,
                None => metric.name,
            };
            let head = "# HELP "@ + name + " "@ + metric.help + "."@ + "\n"@ + "# TYPE "@ + name
                + " "@ + (if metric.kind is Counter {
                "counter"@
            } else {
                "gauge"@
            }) + "\n"@ + (match metric.unit {
                Some(unit) => "# UNIT "@ + name + " "@ + unit + "\n"@,
                None => ""@,
            });
            let suffix = if metric.kind is Counter && format is OpenMetrics {
                "_total"@
            } else {
                ""@
            };
            &&& metric.samples matches Samples::Single(value) ==> text == head + name + suffix
                + " "@ + crate::text::signed_decimal(value) + "\n"@ + end
            &&& metric.samples matches Samples::Family(values) ==> exists|
                label_sets: Seq<LabelSet>,
            |
                #[trigger] label_sets.no_duplicates() && (forall|own: LabelSet|
                    label_sets.contains(own) <==> #[trigger] values.contains_key(own)) && text
                    == head + Seq::new(
                    label_sets.len(),
                    |k: int|
                        name + suffix + "{"@ + Seq::new(
                            label_sets[k].len(),
                            |l: int|
                                (if l == 0 {
                                    ""@
                                } else {
                                    ","@
                                }) + label_sets[k][l].0 + "=\""@ + label_sets[k][l].1 + "\""@,
                        ).flatten() + "}"@ + " "@ + crate::text::signed_decimal(
                            values[label_sets[k]],
                        ) + "\n"@,
                ).flatten() + end
        }),
{
    let none = Seq::<char>::empty();
    let dotted = metric.dotted();
    let name = metric.full_name();
    let suffix = if metric.kind is Counter && format is OpenMetrics {
        "_total"@
    } else {
        ""@
    };
    let listed = choose|listed: Seq<ListedMetric>| #[trigger]
        crate::exposition::lists(seq![metric], listed) && text == format.exposition_text(listed);
    let samples = listed[0].samples;
    lemma_one_unmarked(format, metric, listed, text);
    assert(none + name =~= name);
    assert(dotted.full_name() == name);
    crate::exposition::lemma_head_text(dotted, none);
    lemma_dotted_head(name, metric);
    let head = dotted.head_text(none);
    if metric.samples is Family {
        let values = metric.samples->Family_0;
        let label_sets = crate::exposition::lemma_family_lines(
            dotted,
            samples,
            none,
            suffix,
            none,
        );
        lemma_bracket(name, suffix, label_sets, values);
        assert(label_sets.no_duplicates());
    } else {
        crate::exposition::lemma_single_line(dotted, samples, none, suffix, none);
        lemma_no_labels(head, name, suffix, crate::text::signed_decimal(metric.samples->Single_0));
    }
}

/// Nothing stands between a name and its value if there are no labels.
proof fn lemma_no_labels(head: Seq<char>, name: Seq<char>, suffix: Seq<char>, value: Seq<char>)
    ensures
        head + name + suffix + Seq::<char>::empty() + " "@ + value + "\n"@ == head + name + suffix
            + " "@ + value + "\n"@,
{
    assert(head + name + suffix + Seq::<char>::empty() =~= head + name + suffix);
}

/// The full stop is a part of the line with the help text.
proof fn lemma_dotted_head(name: Seq<char>, metric: MetricView)
    ensures
        "# HELP "@ + name + " "@ + (metric.help + "."@) + "\n"@ == "# HELP "@ + name + " "@
            + metric.help + "."@ + "\n"@,
{
    assert("# HELP "@ + name + " "@ + (metric.help + "."@) + "\n"@ =~= "# HELP "@ + name + " "@
        + metric.help + "."@ + "\n"@);
}

/// The lines of a family if the registry has no labels.
proof fn lemma_bracket(
    name: Seq<char>,
    suffix: Seq<char>,
    label_sets: Seq<LabelSet>,
    values: Map<LabelSet, int>,
)
    ensures
        Seq::new(
            label_sets.len(),
            |k: int|
                crate::exposition::family_line(
                    name,
                    suffix,
                    Seq::empty(),
                    label_sets[k],
                    values[label_sets[k]],
                ),
        ) == Seq::new(
            label_sets.len(),
            |k: int|
                name + suffix + "{"@ + Seq::new(
                    label_sets[k].len(),
                    |l: int|
                        (if l == 0 {
                            ""@
                        } else {
                            ","@
                        }) + label_sets[k][l].0 + "=\""@ + label_sets[k][l].1 + "\""@,
                ).flatten() + "}"@ + " "@ + crate::text::signed_decimal(values[label_sets[k]])
                    + "\n"@,
        ),
{
    let lines = Seq::new(
        label_sets.len(),
        |k: int|
            crate::exposition::family_line(
                name,
                suffix,
                Seq::empty(),
                label_sets[k],
                values[label_sets[k]],
            ),
    );
    let explicit = Seq::new(
        label_sets.len(),
        |k: int|
            name + suffix + "{"@ + Seq::new(
                label_sets[k].len(),
                |l: int|
                    (if l == 0 {
                        ""@
                    } else {
                        ","@
                    }) + label_sets[k][l].0 + "=\""@ + label_sets[k][l].1 + "\""@,
            ).flatten() + "}"@ + " "@ + crate::text::signed_decimal(values[label_sets[k]]) + "\n"@,
    );
    assert forall|k: int| 0 <= k < lines.len() implies #[trigger] lines[k] == explicit[k] by {
        crate::exposition::lemma_label_pieces(label_sets, k);
    }
    assert(lines =~= explicit);
}

/// The text of one metric in front of the end marker.
proof fn lemma_one_unmarked(
    format: Format,
    metric: MetricView,
    listed: Seq<ListedMetric>,
    text: Seq<char>,
)
    requires
        crate::exposition::lists(seq![metric], listed),
        text == format.exposition_text(listed),
        format is OpenMetrics || fits_on_lines(metric),
    ensures
        listed.len() == 1,
        listed[0].metric == metric,
        crate::exposition::is_listing(metric.samples, listed[0].samples),
        ({
            let suffix = if metric.kind is Counter && format is OpenMetrics {
                "_total"@
            } else {
                ""@
            };
            text == metric.dotted().head_text(Seq::empty()) + (ListedMetric {
                metric: metric.dotted(),
                samples: listed[0].samples,
            }).value_lines(Seq::empty(), suffix, Seq::empty(), listed[0].samples.len())
                + end_marker(format)
        }),
{
    let none = Seq::<char>::empty();
    assert(seq![metric][0] == metric);
    assert(listed[0].metric == metric);
    if !(format is OpenMetrics) {
        lemma_presentable(seq![metric], listed);
    }
    lemma_unmarked_text(format, listed);
    let dotted = crate::exposition::all_dotted(listed);
    assert(dotted.drop_last() =~= Seq::empty());
    assert(dotted.last() == listed[0].dotted());
    reveal_with_fuel(crate::exposition::all_text, 2);
    reveal_with_fuel(all_prometheus_text, 2);
    assert(""@ =~= none) by {
        reveal_strlit("");
    }
    let one = if format is OpenMetrics {
        listed[0].dotted().open_metrics_text(none, none)
    } else {
        prometheus_text(listed[0].dotted())
    };
    assert(unmarked_text(format, listed) =~= one);
}

/// What the formats for Prometheus make of OpenMetrics text, line by line. A line that states
/// a value under the name of the current counter and the suffix `_total` loses the suffix. The end
/// marker is dropped unless it is to be kept. All other lines stay as they are. A line with a type
/// makes a counter the current one, or none if it is not about a counter.
///
/// `rest` is what a line may hold behind the suffix, and `name` the name of a counter.
pub proof fn lemma_adapted_text(
    line: Seq<char>,
    tail: Seq<char>,
    counter: Option<Seq<char>>,
    keep_eof: bool,
    name: Seq<char>,
    rest: Seq<char>,
)
    requires
        !line.contains('\n'),
    ensures
        ({
            let whole = adapted(line + "\n"@ + tail, counter, keep_eof);
            let total = counter == Some(name) && line == name + "_total"@ + rest && (rest.len() == 0
                || rest[0] == ' ' || rest[0] == '{');
            let no_total = counter matches Some(current) ==> forall|other: Seq<char>|
                !(line == #[trigger] (current + "_total"@ + other) && (other.len() == 0 || other[0]
                    == ' ' || other[0] == '{'));
            let next = counter_after(line, counter);
            &&& line == "# EOF"@ && !keep_eof ==> whole == adapted(tail, next, keep_eof)
            &&& !(line == "# EOF"@ && !keep_eof) && total ==> whole == name + rest + "\n"@
                + adapted(tail, next, keep_eof)
            &&& !(line == "# EOF"@ && !keep_eof) && no_total ==> whole == line + "\n"@ + adapted(
                tail,
                next,
                keep_eof,
            )
            &&& line == "# TYPE "@ + name + " counter"@ ==> next == Some(name)
            &&& "# TYPE "@.is_prefix_of(line) && !" counter"@.is_suffix_of(line) ==> next is None
            &&& !"# TYPE "@.is_prefix_of(line) ==> next == counter
            &&& adapted(Seq::empty(), counter, keep_eof) == Seq::<char>::empty()
        }),
        forall|listed: Seq<ListedMetric>|
            {
                let open_metrics = #[trigger] Format::OpenMetrics.exposition_text(listed);
                &&& Format::OpenMetricsForPrometheus.exposition_text(listed) == adapted(
                    open_metrics,
                    None,
                    true,
                )
                &&& Format::Prometheus.exposition_text(listed) == adapted(open_metrics, None, false)
            },
{
    reveal_strlit("\n");
    reveal_strlit("# TYPE ");
    reveal_strlit(" counter");
    reveal_strlit("_total");
    reveal_strlit("# EOF");
    let text = line + "\n"@ + tail;
    let whole = adapted(text, counter, keep_eof);
    let next = counter_after(line, counter);
    let none = Seq::<char>::empty();
    assert(on_one_line(line));
    lemma_line_len(text, line.len() as int);
    assert(text.take(line.len() as int) =~= line);
    assert(text.skip(line.len() as int + 1) =~= tail);
    lemma_line_len(none, 0);
    assert(none.take(0) =~= none);
    let kept = without_total(line, counter);
    if line == "# EOF"@ && !keep_eof {
        assert(whole =~= adapted(tail, next, keep_eof));
    } else {
        assert(whole =~= kept + "\n"@ + adapted(tail, next, keep_eof));
    }
    if counter == Some(name) && line == name + "_total"@ + rest && (rest.len() == 0 || rest[0]
        == ' ' || rest[0] == '{') {
        let named = name + "_total"@;
        assert(line.subrange(0, named.len() as int) =~= named);
        assert(line.skip(named.len() as int) =~= rest);
        assert(rest.len() > 0 ==> line[named.len() as int] == rest[0]);
        assert(is_total_of(line, name));
    }
    if let Some(current) = counter {
        let named = current + "_total"@;
        if is_total_of(line, current) {
            let other = line.skip(named.len() as int);
            assert(line =~= named + other);
            assert(line == current + "_total"@ + other);
            assert(other.len() > 0 ==> other[0] == line[named.len() as int]);
        }
    }
    let definition = line.skip("# TYPE "@.len() as int);
    if line == "# TYPE "@ + name + " counter"@ {
        assert(line.subrange(0, "# TYPE "@.len() as int) =~= "# TYPE "@);
        assert(definition =~= name + " counter"@);
        assert(definition.subrange(
            definition.len() - " counter"@.len(),
            definition.len() as int,
        ) =~= " counter"@);
        assert(definition.take(definition.len() - " counter"@.len()) =~= name);
    }
    if "# TYPE "@.is_prefix_of(line) && " counter"@.is_suffix_of(definition) {
        assert(line.subrange(line.len() - " counter"@.len(), line.len() as int)
            =~= definition.subrange(definition.len() - " counter"@.len(), definition.len() as int));
    }
}

/// The content type of each format.
pub proof fn lemma_content_types(format: Format)
    ensures
        format.content_type_spec() == (if format is Prometheus {
            "text/plain; version=0.0.4; charset=utf-8"@
        } else {
            "application/openmetrics-text; version=1.0.0; charset=utf-8"@
        }),
{
}

} // verus!
