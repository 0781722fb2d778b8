use telemetry_transport::batch::{BatcherSettings, PartitionBatcher};
use telemetry_transport::egress::{
    process_metric, EventPartitioner, HecMetricsProcessedEventMetadata, HecMetricsSink,
    HecProcessedEvent,
};
use telemetry_transport::event::{Event, EventMetadata, Metric, MetricKind, MetricValue};
use telemetry_transport::request::{builds_to_start, finish_builds};
use telemetry_transport::template::{Template, TemplatePart};

fn metric_with(name: &str, token: Option<&str>, value: MetricValue) -> Metric {
    Metric {
        name: name.to_string(),
        namespace: None,
        tags: vec![("env".to_string(), "prod".to_string())],
        kind: MetricKind::Absolute,
        value,
        metadata: EventMetadata {
            splunk_hec_token: token.map(|t| t.to_string()),
        },
    }
}

fn counter(name: &str, token: Option<&str>, value: i64) -> Metric {
    metric_with(name, token, MetricValue::Counter { value })
}

fn processed(metric: Metric) -> HecProcessedEvent {
    process_metric(metric, 0, None, None, None, "host", None).expect("supported metric")
}

#[test]
fn process_metric_supports_counter_and_gauge() {
    let pe = processed(counter("requests", None, 41));
    assert_eq!(pe.metadata.metric_value, 41);
    assert_eq!(pe.metadata.metric_name, "requests");
    let pe = processed(metric_with("load", None, MetricValue::Gauge { value: 7 }));
    assert_eq!(pe.metadata.metric_value, 7);
}

#[test]
fn unsupported_kind_is_dropped() {
    let m = metric_with("hist", None, MetricValue::Distribution { samples: vec![1, 2] });
    assert!(process_metric(m, 9, None, None, None, "host", None).is_none());
    let m = metric_with("hist", None, MetricValue::Histogram { buckets: vec![3] });
    assert!(process_metric(m, 9, None, None, None, "host", None).is_none());
}

#[test]
fn unsupported_kind_never_reaches_a_batch_and_counts_one_diagnostic() {
    let sink = HecMetricsSink {
        batch_settings: BatcherSettings {
            max_events: 10,
            timeout_millis: 1000,
        },
        sourcetype: None,
        source: None,
        index: None,
        host: "host".to_string(),
        default_namespace: None,
    };
    let events = vec![
        Event::Metric(counter("a", None, 1)),
        Event::Metric(metric_with("bad", None, MetricValue::Distribution { samples: vec![] })),
        Event::Metric(counter("b", None, 2)),
        Event::Metric(metric_with("worse", None, MetricValue::Histogram { buckets: vec![] })),
    ];
    let (kept, dropped) = sink.process_events(events);
    assert_eq!(dropped, 2, "exactly one diagnostic per unsupported event");
    assert_eq!(kept.len(), 2);
    assert!(kept.iter().all(|pe| matches!(
        pe.event.value,
        MetricValue::Counter { .. } | MetricValue::Gauge { .. }
    )));
    assert_eq!(kept[0].event.name, "a");
    assert_eq!(kept[1].event.name, "b");
}

#[test]
fn metric_name_is_namespace_qualified() {
    let mut m = counter("cpu", None, 1);
    m.namespace = Some("sys".to_string());
    assert_eq!(
        HecMetricsProcessedEventMetadata::extract_metric_name(&m, Some("default")),
        "sys.cpu"
    );
    let m = counter("cpu", None, 1);
    assert_eq!(
        HecMetricsProcessedEventMetadata::extract_metric_name(&m, Some("default")),
        "default.cpu"
    );
    assert_eq!(
        HecMetricsProcessedEventMetadata::extract_metric_name(&m, None),
        "cpu"
    );
}

#[test]
fn templates_render_and_unresolved_fields_drop_only_the_field() {
    let template = Template {
        parts: vec![
            TemplatePart::Literal("idx-".to_string()),
            TemplatePart::TagField("env".to_string()),
        ],
    };
    let missing = Template {
        parts: vec![TemplatePart::TagField("no_such_tag".to_string())],
    };
    let m = counter("cpu", None, 1);
    let pe = process_metric(m, 0, Some(&missing), None, Some(&template), "host", None)
        .expect("event kept despite unresolved sourcetype");
    assert_eq!(pe.metadata.index, Some("idx-prod".to_string()));
    assert_eq!(pe.metadata.sourcetype, None);
    // tag keys referenced by (index, source, sourcetype) templates, in order
    assert_eq!(pe.metadata.templated_field_keys, vec!["env", "no_such_tag"]);
}

#[test]
fn template_name_field_renders_the_metric_name() {
    let template = Template {
        parts: vec![
            TemplatePart::TagField("env".to_string()),
            TemplatePart::Literal("/".to_string()),
            TemplatePart::NameField,
        ],
    };
    let m = counter("cpu", None, 1);
    assert_eq!(template.render(&m), Some("prod/cpu".to_string()));
}

#[test]
fn host_is_resolved_from_the_configured_tag() {
    let mut m = counter("cpu", None, 1);
    m.tags.push(("node".to_string(), "worker-3".to_string()));
    let pe = process_metric(m, 0, None, None, None, "node", None).unwrap();
    assert_eq!(pe.metadata.host, Some("worker-3".to_string()));
}

#[test]
fn byte_size_is_captured_before_processing() {
    let sink = HecMetricsSink {
        batch_settings: BatcherSettings {
            max_events: 10,
            timeout_millis: 1000,
        },
        sourcetype: None,
        source: None,
        index: None,
        host: "host".to_string(),
        default_namespace: None,
    };
    let m = counter("abc", None, 5);
    // name (3) + tags "env" (3) + "prod" (4)
    let (kept, _) = sink.process_events(vec![Event::Metric(m)]);
    assert_eq!(kept[0].metadata.event_byte_size, 10);
}

#[test]
fn allocated_bytes_sums_the_string_payloads() {
    let meta = HecMetricsProcessedEventMetadata {
        event_byte_size: 999,
        sourcetype: Some("st".to_string()),
        source: None,
        index: Some("main".to_string()),
        host: Some("h".to_string()),
        metric_name: "cpu".to_string(),
        metric_value: 1,
        templated_field_keys: vec!["env".to_string()],
    };
    assert_eq!(meta.allocated_bytes(), 2 + 4 + 1 + 3 + 3);
}

#[test]
fn event_count_is_one_per_processed_event() {
    let pe = processed(counter("cpu", None, 1));
    assert_eq!(pe.event_count(), 1);
}

#[test]
fn partitioner_extracts_the_routing_token() {
    let partitioner = EventPartitioner::default();
    let with = processed(counter("cpu", Some("token-a"), 1));
    let without = processed(counter("cpu", None, 1));
    assert_eq!(partitioner.partition(&with), Some("token-a".to_string()));
    assert_eq!(partitioner.partition(&without), None);
}

#[test]
fn batcher_emits_exactly_at_the_item_limit() {
    let mut batcher = PartitionBatcher::new(BatcherSettings {
        max_events: 3,
        timeout_millis: 1000,
    });
    assert!(batcher.push(processed(counter("a", None, 1)), 0).is_none());
    assert!(batcher.push(processed(counter("b", None, 2)), 1).is_none());
    let batch = batcher.push(processed(counter("c", None, 3)), 2).expect("full batch");
    assert_eq!(batch.len(), 3);
    let names: Vec<&str> = batch.iter().map(|pe| pe.event.name.as_str()).collect();
    assert_eq!(names, vec!["a", "b", "c"], "arrival order preserved");
    // the partition starts over
    assert!(batcher.push(processed(counter("d", None, 4)), 3).is_none());
}

#[test]
fn differing_partition_keys_never_share_a_batch() {
    let mut batcher = PartitionBatcher::new(BatcherSettings {
        max_events: 2,
        timeout_millis: 1000,
    });
    let mut emitted = Vec::new();
    for (name, token) in [
        ("a1", Some("alpha")),
        ("b1", Some("beta")),
        ("a2", Some("alpha")),
        ("n1", None),
        ("b2", Some("beta")),
        ("n2", None),
    ] {
        if let Some(batch) = batcher.push(processed(counter(name, token, 0)), 0) {
            emitted.push(batch);
        }
    }
    assert_eq!(emitted.len(), 3);
    for batch in &emitted {
        let first = &batch[0].event.metadata.splunk_hec_token;
        assert!(batch
            .iter()
            .all(|pe| pe.event.metadata.splunk_hec_token == *first));
    }
    assert_eq!(emitted[0][0].event.name, "a1");
    assert_eq!(emitted[1][0].event.name, "b1");
    assert_eq!(emitted[2][0].event.name, "n1");
}

#[test]
fn time_window_emits_batches_under_the_item_limit() {
    let mut batcher = PartitionBatcher::new(BatcherSettings {
        max_events: 100,
        timeout_millis: 50,
    });
    assert!(batcher.push(processed(counter("a", Some("alpha"), 1)), 0).is_none());
    assert!(batcher.push(processed(counter("b", Some("beta"), 2)), 30).is_none());
    // only the first partition's window has closed at t = 55
    let emitted = batcher.expire(55);
    assert_eq!(emitted.len(), 1);
    assert_eq!(emitted[0][0].event.name, "a");
    let emitted = batcher.expire(90);
    assert_eq!(emitted.len(), 1);
    assert_eq!(emitted[0][0].event.name, "b");
    assert!(batcher.expire(1000).is_empty());
}

#[test]
fn flush_drains_every_open_batch() {
    let mut batcher = PartitionBatcher::new(BatcherSettings {
        max_events: 10,
        timeout_millis: 1000,
    });
    batcher.push(processed(counter("a", Some("alpha"), 1)), 0);
    batcher.push(processed(counter("b", None, 2)), 0);
    let emitted = batcher.flush();
    assert_eq!(emitted.len(), 2);
    assert!(batcher.flush().is_empty());
}

#[test]
fn one_failed_build_never_costs_other_batches_their_requests() {
    let batches = vec![
        vec![processed(counter("a", Some("alpha"), 1))],
        vec![processed(counter("b", Some("beta"), 2))],
        vec![processed(counter("c", None, 3))],
    ];
    let bodies = vec![
        Some(b"body-a".to_vec()),
        None, // this build failed
        Some(b"body-c".to_vec()),
    ];
    let (requests, failures) = finish_builds(batches, bodies);
    assert_eq!(failures, 1, "one diagnostic for the one failed build");
    assert_eq!(requests.len(), 2);
    assert_eq!(requests[0].body, b"body-a".to_vec());
    assert_eq!(requests[0].event_count, 1);
    assert_eq!(requests[0].partition_key, Some("alpha".to_string()));
    assert_eq!(requests[1].body, b"body-c".to_vec());
    assert_eq!(requests[1].partition_key, None);
}

#[test]
fn request_builds_are_bounded_to_sixty_four_in_flight() {
    assert_eq!(builds_to_start(10, 0), 10);
    assert_eq!(builds_to_start(100, 0), 64);
    assert_eq!(builds_to_start(100, 60), 4);
    assert_eq!(builds_to_start(0, 64), 0);
}
