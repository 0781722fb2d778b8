//! Egress metrics sink: derives per-event metadata once at ingestion into the
//! batching stage — a namespace-qualified name, the numeric sample value,
//! rendered routing fields and the routing-token partition key — and drops
//! events whose sample shape the downstream protocol does not support.
use vstd::prelude::*;
use vstd::string::StringExecFns;

use crate::event::{
    clamp_usize, spec_event_size, spec_tag_value, supported_metric_value, Event, Metric,
    MetricValue,
};
use crate::batch::BatcherSettings;
use crate::template::{spec_tag_fields, Template};

verus! {

/// A domain event paired with sink-specific metadata derived once and carried
/// through partitioning, batching and request building without recomputation.
#[derive(Clone, Debug, PartialEq)]
pub struct ProcessedEvent<T, Meta> {
    pub event: T,
    pub metadata: Meta,
}

/// The metadata derived for one metric sample.
#[derive(Clone, Debug, PartialEq)]
pub struct HecMetricsProcessedEventMetadata {
    pub event_byte_size: usize,
    pub sourcetype: Option<String>,
    pub source: Option<String>,
    pub index: Option<String>,
    pub host: Option<String>,
    pub metric_name: String,
    pub metric_value: i64,
    pub templated_field_keys: Vec<String>,
}

pub type HecProcessedEvent = ProcessedEvent<Metric, HecMetricsProcessedEventMetadata>;

/// The numeric value a metric sample carries, for the supported shapes.
pub open spec fn spec_metric_value(v: MetricValue) -> Option<i64> {
    match v {
        MetricValue::Counter { value } => Some(value),
        MetricValue::Gauge { value } => Some(value),
        _ => None,
    }
}

/// The namespace-qualified record name: `namespace.name` under the metric's
/// own namespace, falling back to the configured default, else the bare name.
pub open spec fn spec_namespaced_name(metric: Metric, default_namespace: Option<Seq<char>>) -> Seq<
    char,
> {
    let ns = match metric.namespace {
        Some(n) => Some(n@),
        None => default_namespace,
    };
    match ns {
        Some(n) => n + "."@ + metric.name@,
        None => metric.name@,
    }
}

/// An optional reference lifted to an optional value, for contracts.
pub open spec fn copy_opt<T>(x: Option<&T>) -> Option<T> {
    match x {
        Some(t) => Some(*t),
        None => None,
    }
}

/// The view of an optional string.
pub open spec fn opt_str_view(s: Option<&str>) -> Option<Seq<char>> {
    match s {
        Some(s) => Some(s@),
        None => None,
    }
}

/// What an optional template renders to: nothing when there is no template or
/// when a referenced tag is missing.
pub open spec fn spec_render_opt(t: Option<Template>, metric: Metric) -> Option<Seq<char>> {
    match t {
        Some(t) => t.spec_render(metric),
        None => None,
    }
}

/// The tag keys an optional template references.
pub open spec fn spec_tag_fields_opt(t: Option<Template>) -> Seq<String> {
    match t {
        Some(t) => spec_tag_fields(t.parts@),
        None => Seq::empty(),
    }
}

/// True when `s` holds exactly the rendering `v`, both absent or both equal.
pub open spec fn opt_str_matches(s: Option<String>, v: Option<Seq<char>>) -> bool {
    match s {
        Some(s) => v == Some(s@),
        None => v is None,
    }
}

/// How the derived metadata relates to the metric it was derived from and the
/// sink configuration in effect.
pub open spec fn hec_metadata_ok(
    sourcetype: Option<Template>,
    source: Option<Template>,
    index: Option<Template>,
    host_key: Seq<char>,
    default_namespace: Option<Seq<char>>,
    metric: Metric,
    event_byte_size: usize,
    meta: HecMetricsProcessedEventMetadata,
) -> bool {
    &&& meta.event_byte_size == event_byte_size
    &&& meta.metric_name@ == spec_namespaced_name(metric, default_namespace)
    &&& Some(meta.metric_value) == spec_metric_value(metric.value)
    &&& opt_str_matches(meta.sourcetype, spec_render_opt(sourcetype, metric))
    &&& opt_str_matches(meta.source, spec_render_opt(source, metric))
    &&& opt_str_matches(meta.index, spec_render_opt(index, metric))
    &&& meta.host == spec_tag_value(metric.tags@, host_key)
    &&& meta.templated_field_keys@ == spec_tag_fields_opt(index) + spec_tag_fields_opt(source)
        + spec_tag_fields_opt(sourcetype)
}

/// The characters an optional string holds.
pub open spec fn spec_opt_str_len(s: Option<String>) -> nat {
    match s {
        Some(s) => s@.len(),
        None => 0,
    }
}

/// The characters a list of field keys holds.
pub open spec fn spec_keys_size(keys: Seq<String>) -> nat
    decreases keys.len(),
{
    if keys.len() == 0 {
        0
    } else {
        spec_keys_size(keys.drop_last()) + keys.last()@.len()
    }
}

impl HecMetricsProcessedEventMetadata {
    /// The characters this metadata's strings hold beyond its fixed-size
    /// shell.
    pub open spec fn spec_allocated_bytes(&self) -> nat {
        spec_opt_str_len(self.sourcetype) + spec_opt_str_len(self.source) + spec_opt_str_len(
            self.index,
        ) + spec_opt_str_len(self.host) + self.metric_name@.len() + spec_keys_size(
            self.templated_field_keys@,
        )
    }

    /// The derived metadata's allocation footprint; saturates at the
    /// machine's word range.
    pub fn allocated_bytes(&self) -> (r: usize)
        ensures
            r == clamp_usize(self.spec_allocated_bytes()),
    {
        let mut acc: usize = 0;
        if let Some(s) = &self.sourcetype {
            acc = acc.saturating_add(s.as_str().unicode_len());
        }
        if let Some(s) = &self.source {
            acc = acc.saturating_add(s.as_str().unicode_len());
        }
        if let Some(s) = &self.index {
            acc = acc.saturating_add(s.as_str().unicode_len());
        }
        if let Some(s) = &self.host {
            acc = acc.saturating_add(s.as_str().unicode_len());
        }
        acc = acc.saturating_add(self.metric_name.as_str().unicode_len());
        let ghost base = spec_opt_str_len(self.sourcetype) + spec_opt_str_len(self.source)
            + spec_opt_str_len(self.index) + spec_opt_str_len(self.host) + self.metric_name@.len();
        let n = self.templated_field_keys.len();
        let mut i: usize = 0;
        proof {
            assert(self.templated_field_keys@.take(0) =~= Seq::<String>::empty());
        }
        while i < n
            invariant
                n == self.templated_field_keys@.len(),
                i <= n,
                acc == clamp_usize(
                    base + spec_keys_size(self.templated_field_keys@.take(i as int)),
                ),
            decreases n - i,
        {
            proof {
                assert(self.templated_field_keys@.take(i + 1).drop_last()
                    =~= self.templated_field_keys@.take(i as int));
                assert(self.templated_field_keys@.take(i + 1).last()
                    == self.templated_field_keys@[i as int]);
            }
            acc = acc.saturating_add(self.templated_field_keys[i].as_str().unicode_len());
            i += 1;
        }
        proof {
            assert(self.templated_field_keys@.take(n as int) =~= self.templated_field_keys@);
        }
        acc
    }

    /// The namespace-qualified record name for one metric.
    pub fn extract_metric_name(metric: &Metric, default_namespace: Option<&str>) -> (r: String)
        ensures
            r@ == spec_namespaced_name(*metric, opt_str_view(default_namespace)),
    {
        let ns: Option<&String> = metric.namespace.as_ref();
        match ns {
            Some(n) => {
                let mut out = n.clone();
                out.append(".");
                out.append(metric.name.as_str());
                out
            },
            None => match default_namespace {
                Some(d) => {
                    let mut out = d.to_owned();
                    out.append(".");
                    out.append(metric.name.as_str());
                    out
                },
                None => metric.name.clone(),
            },
        }
    }

    /// The numeric value of a supported sample; an unsupported shape yields
    /// nothing and is the one per-event diagnostic occasion.
    pub fn extract_metric_value(metric: &Metric) -> (r: Option<i64>)
        ensures
            r == spec_metric_value(metric.value),
            r is Some <==> supported_metric_value(metric.value),
    {
        match &metric.value {
            MetricValue::Counter { value } => Some(*value),
            MetricValue::Gauge { value } => Some(*value),
            _ => None,
        }
    }
}

/// Derives the sink metadata for one metric: the qualified name, the numeric
/// value when the sample shape is supported, the rendered routing fields, the
/// host tag, and the tag keys the templates reference. An unsupported shape
/// yields nothing, so the event is dropped before partitioning.
pub fn process_metric(
    metric: Metric,
    event_byte_size: usize,
    sourcetype: Option<&Template>,
    source: Option<&Template>,
    index: Option<&Template>,
    host_key: &str,
    default_namespace: Option<&str>,
) -> (r: Option<HecProcessedEvent>)
    ensures
        r is Some <==> supported_metric_value(metric.value),
        r matches Some(pe) ==> pe.event == metric && hec_metadata_ok(
            copy_opt(sourcetype),
            copy_opt(source),
            copy_opt(index),
            host_key@,
            opt_str_view(default_namespace),
            metric,
            event_byte_size,
            pe.metadata,
        ),
{
    let mut templated_field_keys: Vec<String> = Vec::new();
    if let Some(t) = index {
        let mut fields = t.get_fields();
        templated_field_keys.append(&mut fields);
    }
    if let Some(t) = source {
        let mut fields = t.get_fields();
        templated_field_keys.append(&mut fields);
    }
    if let Some(t) = sourcetype {
        let mut fields = t.get_fields();
        templated_field_keys.append(&mut fields);
    }
    proof {
        assert(templated_field_keys@ =~= spec_tag_fields_opt(copy_opt(index))
            + spec_tag_fields_opt(copy_opt(source)) + spec_tag_fields_opt(copy_opt(sourcetype)));
    }
    let metric_name = HecMetricsProcessedEventMetadata::extract_metric_name(
        &metric,
        default_namespace,
    );
    let metric_value = match HecMetricsProcessedEventMetadata::extract_metric_value(&metric) {
        Some(v) => v,
        None => {
            return None;
        },
    };
    let rendered_sourcetype = match sourcetype {
        Some(t) => t.render(&metric),
        None => None,
    };
    let rendered_source = match source {
        Some(t) => t.render(&metric),
        None => None,
    };
    let rendered_index = match index {
        Some(t) => t.render(&metric),
        None => None,
    };
    let host = metric.tag_value(host_key);
    let metadata = HecMetricsProcessedEventMetadata {
        event_byte_size,
        sourcetype: rendered_sourcetype,
        source: rendered_source,
        index: rendered_index,
        host,
        metric_name,
        metric_value,
        templated_field_keys,
    };
    Some(ProcessedEvent { event: metric, metadata })
}

impl ProcessedEvent<Metric, HecMetricsProcessedEventMetadata> {
    /// A processed event is mapped one-to-one with an event.
    pub fn event_count(&self) -> (r: usize)
        ensures
            r == 1,
    {
        1
    }
}

/// Extracts the partition key of one processed event: its routing token.
/// Events with equal keys — both absent included — may share a batch; events
/// with differing keys never do.
pub struct EventPartitioner;

impl Default for EventPartitioner {
    fn default() -> (r: Self)
        ensures
            r == EventPartitioner,
    {
        EventPartitioner
    }
}

impl EventPartitioner {
    pub fn partition(&self, item: &HecProcessedEvent) -> (r: Option<String>)
        ensures
            r == item.event.metadata.splunk_hec_token,
    {
        match &item.event.metadata.splunk_hec_token {
            Some(token) => Some(token.clone()),
            None => None,
        }
    }
}

/// The metric samples of an event stream whose shape the sink supports, in
/// arrival order: what survives the filter-and-derive stage.
pub open spec fn spec_kept_metrics(events: Seq<Event>) -> Seq<Metric>
    decreases events.len(),
{
    if events.len() == 0 {
        Seq::empty()
    } else {
        let rest = spec_kept_metrics(events.drop_last());
        match events.last() {
            Event::Metric(m) => if supported_metric_value(m.value) {
                rest.push(m)
            } else {
                rest
            },
            Event::Log(_) => rest,
        }
    }
}

/// The egress sink's configuration: batch bounds and the routing-field
/// templates applied to every metric.
#[derive(Clone, Debug)]
pub struct HecMetricsSink {
    pub batch_settings: BatcherSettings,
    pub sourcetype: Option<Template>,
    pub source: Option<Template>,
    pub index: Option<Template>,
    pub host: String,
    pub default_namespace: Option<String>,
}

impl HecMetricsSink {
    /// Captures one event's byte size and derives its sink metadata; an
    /// unsupported sample shape yields nothing.
    pub fn process_event(&self, event: Event) -> (r: Option<HecProcessedEvent>)
        requires
            event is Metric,
        ensures
            r is Some <==> supported_metric_value(event->Metric_0.value),
            r matches Some(pe) ==> pe.event == event->Metric_0 && hec_metadata_ok(
                self.sourcetype,
                self.source,
                self.index,
                self.host@,
                match self.default_namespace {
                    Some(ns) => Some(ns@),
                    None => None,
                },
                event->Metric_0,
                clamp_usize(spec_event_size(event)) as usize,
                pe.metadata,
            ),
    {
        let event_byte_size = event.estimated_size();
        let metric = event.into_metric();
        process_metric(
            metric,
            event_byte_size,
            self.sourcetype.as_ref(),
            self.source.as_ref(),
            self.index.as_ref(),
            self.host.as_str(),
            match &self.default_namespace {
                Some(ns) => Some(ns.as_str()),
                None => None,
            },
        )
    }

    /// Runs the filter-and-derive stage over a stream of metric events. Hands
    /// back the processed events in arrival order together with the number of
    /// unsupported events dropped — each of which is exactly one diagnostic
    /// emission, and none of which reaches any batch.
    pub fn process_events(&self, events: Vec<Event>) -> (r: (Vec<HecProcessedEvent>, usize))
        requires
            forall|i: int| 0 <= i < events@.len() ==> (#[trigger] events@[i]) is Metric,
        ensures
            r.0@.len() == spec_kept_metrics(events@).len(),
            forall|j: int|
                0 <= j < r.0@.len() ==> (#[trigger] r.0@[j]).event == spec_kept_metrics(events@)[j]
                    && supported_metric_value(r.0@[j].event.value),
            r.0@.len() + r.1 == events@.len(),
    {
        let ghost orig = events@;
        let n = events.len();
        let mut events = events;
        let mut rev: Vec<Event> = Vec::new();
        while events.len() > 0
            invariant
                events@.len() + rev@.len() == orig.len(),
                events@ == orig.take(events@.len() as int),
                forall|i: int|
                    0 <= i < rev@.len() ==> #[trigger] rev@[i] == orig[orig.len() - 1 - i],
            decreases events@.len(),
        {
            let ghost m = events@.len() as int;
            let ev = events.pop().unwrap();
            proof {
                assert(ev == orig[m - 1]);
                assert(events@ =~= orig.take(m - 1));
            }
            rev.push(ev);
        }
        let mut out: Vec<HecProcessedEvent> = Vec::new();
        let mut dropped: usize = 0;
        proof {
            assert(orig.take(0) =~= Seq::<Event>::empty());
        }
        while rev.len() > 0
            invariant
                orig.len() <= usize::MAX,
                rev@.len() <= orig.len(),
                forall|i: int|
                    0 <= i < rev@.len() ==> #[trigger] rev@[i] == orig[orig.len() - 1 - i],
                forall|i: int| 0 <= i < orig.len() ==> (#[trigger] orig[i]) is Metric,
                out@.len() == spec_kept_metrics(
                    orig.take((orig.len() - rev@.len()) as int),
                ).len(),
                forall|j: int|
                    0 <= j < out@.len() ==> (#[trigger] out@[j]).event == spec_kept_metrics(
                        orig.take((orig.len() - rev@.len()) as int),
                    )[j] && supported_metric_value(out@[j].event.value),
                out@.len() + dropped == orig.len() - rev@.len(),
            decreases rev@.len(),
        {
            let ghost consumed = (orig.len() - rev@.len()) as int;
            let ev = rev.pop().unwrap();
            proof {
                assert(ev == orig[consumed]);
                assert(orig.take(consumed + 1).drop_last() =~= orig.take(consumed));
                assert(orig.take(consumed + 1).last() == orig[consumed]);
            }
            match self.process_event(ev) {
                Some(pe) => {
                    out.push(pe);
                },
                None => {
                    dropped += 1;
                },
            }
        }
        proof {
            assert(orig.take(orig.len() as int) =~= orig);
        }
        (out, dropped)
    }
}

} // verus!
