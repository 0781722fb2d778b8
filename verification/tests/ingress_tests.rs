use telemetry_transport::buffer::{buf_with_capacity, prepare_receive_buffer, take_datagram};
use telemetry_transport::event::{Event, EventMetadata, LogEvent, Metric, MetricKind, MetricValue, Value};
use telemetry_transport::ingress::{
    enrich_batch, enrich_log_event, receive_action, send_action, split_frames, DecodeResult,
    ReceiveAction, ReceiveEvent, SendAction, SendEvent, UdpConfig, DEFAULT_MAX_LENGTH,
};

fn no_token() -> EventMetadata {
    EventMetadata {
        splunk_hec_token: None,
    }
}

fn log_event_from(text: &str) -> Event {
    let mut log = LogEvent::new(no_token());
    log.insert("message".to_string(), Value::Text(text.to_string()));
    Event::Log(log)
}

fn field<'a>(log: &'a LogEvent, key: &str) -> Option<&'a Value> {
    log.get(key)
}

#[test]
fn from_address_defaults() {
    let config = UdpConfig::from_address("127.0.0.1:9000".to_string());
    assert_eq!(config.address().as_str(), "127.0.0.1:9000");
    assert_eq!(config.max_length, DEFAULT_MAX_LENGTH);
    assert_eq!(config.host_key(), &None);
    assert_eq!(config.port_key(), &Some("port".to_string()));
    assert_eq!(config.receive_buffer_bytes, None);
    assert_eq!(config.log_namespace, None);
}

#[test]
fn set_log_namespace_overrides() {
    let mut config = UdpConfig::from_address("127.0.0.1:9000".to_string());
    config.set_log_namespace(Some(true));
    assert_eq!(config.log_namespace, Some(true));
}

#[test]
fn effective_max_length_clips_to_receive_buffer() {
    let mut config = UdpConfig::from_address("0.0.0.0:1".to_string());
    config.max_length = 100;
    config.receive_buffer_bytes = Some(40);
    assert_eq!(config.effective_max_length(), 40);
    config.receive_buffer_bytes = Some(500);
    assert_eq!(config.effective_max_length(), 100);
    config.receive_buffer_bytes = None;
    assert_eq!(config.effective_max_length(), 100);
}

#[test]
fn truncation_drops_only_last_event_of_final_frame() {
    // three frames, 2 + 1 + 2 events: truncated keeps 2 + 1 + 1
    let frames = vec![
        DecodeResult::Frame(vec![log_event_from("a"), log_event_from("b")]),
        DecodeResult::Frame(vec![log_event_from("c")]),
        DecodeResult::Frame(vec![log_event_from("d"), log_event_from("e")]),
    ];
    let (batches, warned) = split_frames(frames.clone(), true);
    assert!(warned);
    let total: usize = batches.iter().map(|b| b.len()).sum();
    assert_eq!(total, 4);
    assert_eq!(batches.len(), 3);
    assert_eq!(batches[2], vec![log_event_from("d")]);

    let (batches, warned) = split_frames(frames, false);
    assert!(!warned);
    let total: usize = batches.iter().map(|b| b.len()).sum();
    assert_eq!(total, 5);
}

#[test]
fn truncation_of_single_event_final_frame_skips_empty_batch() {
    let frames = vec![
        DecodeResult::Frame(vec![log_event_from("a")]),
        DecodeResult::Frame(vec![log_event_from("b")]),
    ];
    let (batches, warned) = split_frames(frames, true);
    assert!(warned);
    assert_eq!(batches.len(), 1);
    assert_eq!(batches[0], vec![log_event_from("a")]);
}

#[test]
fn fatal_decode_failure_stops_the_datagram() {
    let frames = vec![
        DecodeResult::Frame(vec![log_event_from("a")]),
        DecodeResult::Failed { can_continue: false },
        DecodeResult::Frame(vec![log_event_from("b")]),
    ];
    let (batches, warned) = split_frames(frames, true);
    // the final frame is never reached, so no truncation warning either
    assert!(!warned);
    assert_eq!(batches.len(), 1);
    assert_eq!(batches[0], vec![log_event_from("a")]);
}

#[test]
fn frame_local_decode_failure_is_skipped() {
    let frames = vec![
        DecodeResult::Failed { can_continue: true },
        DecodeResult::Frame(vec![log_event_from("a")]),
    ];
    let (batches, warned) = split_frames(frames, false);
    assert!(!warned);
    assert_eq!(batches.len(), 1);
    assert_eq!(batches[0], vec![log_event_from("a")]);
}

#[test]
fn insert_if_empty_never_overwrites() {
    let mut log = LogEvent::new(no_token());
    log.insert("host".to_string(), Value::Text("original".to_string()));
    log.insert_if_empty("host".to_string(), Value::Text("peer".to_string()));
    assert_eq!(
        field(&log, "host"),
        Some(&Value::Text("original".to_string()))
    );
    log.insert_if_empty("port".to_string(), Value::Integer(9000));
    assert_eq!(field(&log, "port"), Some(&Value::Integer(9000)));
}

#[test]
fn enrichment_stamps_envelope_and_peer_fields() {
    let config = UdpConfig::from_address("0.0.0.0:9000".to_string());
    let mut log = LogEvent::new(no_token());
    log.insert("message".to_string(), Value::Text("hello".to_string()));
    enrich_log_event(&mut log, &config, "10.1.2.3".to_string(), 12345, 1700000000000);
    assert_eq!(
        field(&log, "timestamp"),
        Some(&Value::Integer(1700000000000))
    );
    assert_eq!(
        field(&log, "source_type"),
        Some(&Value::Text("socket".to_string()))
    );
    assert_eq!(field(&log, "host"), Some(&Value::Text("10.1.2.3".to_string())));
    assert_eq!(field(&log, "port"), Some(&Value::Integer(12345)));
    assert_eq!(
        field(&log, "message"),
        Some(&Value::Text("hello".to_string()))
    );
}

#[test]
fn enrichment_respects_configured_keys_and_occupied_fields() {
    let mut config = UdpConfig::from_address("0.0.0.0:9000".to_string());
    config.host_key = Some("peer".to_string());
    let mut log = LogEvent::new(no_token());
    log.insert("port".to_string(), Value::Integer(1));
    enrich_log_event(&mut log, &config, "10.0.0.9".to_string(), 7, 5);
    assert_eq!(field(&log, "peer"), Some(&Value::Text("10.0.0.9".to_string())));
    assert_eq!(field(&log, "host"), None);
    // the port field was occupied: never overwritten
    assert_eq!(field(&log, "port"), Some(&Value::Integer(1)));
}

#[test]
fn metric_events_pass_enrichment_untouched() {
    let config = UdpConfig::from_address("0.0.0.0:9000".to_string());
    let metric = Event::Metric(Metric {
        name: "cpu".to_string(),
        namespace: None,
        tags: vec![],
        kind: MetricKind::Absolute,
        value: MetricValue::Gauge { value: 7 },
        metadata: no_token(),
    });
    let out = enrich_batch(vec![metric.clone()], &config, &"1.2.3.4".to_string(), 1, 2);
    assert_eq!(out, vec![metric]);
}

#[test]
fn shutdown_wins_at_both_suspension_points() {
    assert_eq!(
        receive_action(ReceiveEvent::ShutdownRequested, 10),
        ReceiveAction::StopClean
    );
    assert_eq!(send_action(SendEvent::ShutdownRequested), SendAction::StopClean);
}

#[test]
fn receive_outcomes_map_to_their_actions() {
    assert_eq!(
        receive_action(ReceiveEvent::Datagram { byte_size: 11 }, 10),
        ReceiveAction::ProcessDatagram { truncated: true }
    );
    assert_eq!(
        receive_action(ReceiveEvent::Datagram { byte_size: 10 }, 10),
        ReceiveAction::ProcessDatagram { truncated: false }
    );
    assert_eq!(
        receive_action(ReceiveEvent::OversizeError, 10),
        ReceiveAction::DiscardDatagram
    );
    assert_eq!(
        receive_action(ReceiveEvent::FatalError, 10),
        ReceiveAction::StopFatal
    );
    assert_eq!(send_action(SendEvent::Delivered), SendAction::NextFrame);
    assert_eq!(send_action(SendEvent::ChannelClosed), SendAction::StopClean);
}

#[test]
fn end_to_end_truncated_datagram_forwards_one_event() {
    // a socket with max_length = 10 receives a 12-byte datagram of two
    // newline-delimited records, 5 bytes and 7 bytes; the read clips it to
    // 11 bytes, the truncation sentinel
    let mut config = UdpConfig::from_address("0.0.0.0:9000".to_string());
    config.max_length = 10;
    let max_length = config.effective_max_length();
    assert_eq!(max_length, 10);

    let mut buf = buf_with_capacity(max_length + 1);
    prepare_receive_buffer(&mut buf, max_length);
    let datagram: &[u8] = b"AAAAA\nBBBBBB";
    let byte_size = datagram.len().min(max_length + 1);
    buf[..byte_size].copy_from_slice(&datagram[..byte_size]);
    let (payload, truncated) = take_datagram(&mut buf, byte_size, max_length);
    assert_eq!(payload, b"AAAAA\nBBBBB".to_vec());
    assert!(truncated);

    // the decoder frames the payload at newlines: two frames, one event each
    let frames: Vec<DecodeResult> = payload
        .split(|b| *b == b'\n')
        .map(|record| {
            DecodeResult::Frame(vec![log_event_from(&String::from_utf8_lossy(record))])
        })
        .collect();
    assert_eq!(frames.len(), 2);

    let (batches, warned) = split_frames(frames, truncated);
    assert!(warned, "a truncation warning is logged once");
    assert_eq!(batches.len(), 1, "only the first record survives");
    assert_eq!(batches[0], vec![log_event_from("AAAAA")]);

    let enriched = enrich_batch(batches.into_iter().next().unwrap(), &config, &"127.0.0.1".to_string(), 5000, 1700000000000);
    assert_eq!(enriched.len(), 1);
    match &enriched[0] {
        Event::Log(log) => {
            assert_eq!(field(log, "message"), Some(&Value::Text("AAAAA".to_string())));
            assert_eq!(field(log, "host"), Some(&Value::Text("127.0.0.1".to_string())));
            assert_eq!(field(log, "port"), Some(&Value::Integer(5000)));
        }
        Event::Metric(_) => panic!("expected a log event"),
    }
}

#[test]
fn untruncated_datagram_forwards_all_events() {
    let max_length = 10;
    let mut buf = buf_with_capacity(0);
    prepare_receive_buffer(&mut buf, max_length);
    let datagram: &[u8] = b"AAAAA\nBBB";
    buf[..datagram.len()].copy_from_slice(datagram);
    let (payload, truncated) = take_datagram(&mut buf, datagram.len(), max_length);
    assert!(!truncated);
    assert_eq!(payload, datagram.to_vec());
    let frames = vec![
        DecodeResult::Frame(vec![log_event_from("AAAAA")]),
        DecodeResult::Frame(vec![log_event_from("BBB")]),
    ];
    let (batches, warned) = split_frames(frames, truncated);
    assert!(!warned);
    assert_eq!(batches.len(), 2);
}

#[test]
fn process_datagram_clips_and_enriches_in_one_pass() {
    let mut config = UdpConfig::from_address("0.0.0.0:9000".to_string());
    config.max_length = 10;
    let frames = vec![
        DecodeResult::Frame(vec![log_event_from("AAAAA")]),
        DecodeResult::Frame(vec![log_event_from("BBBBB")]),
    ];
    let (batches, warned) = telemetry_transport::ingress::process_datagram(
        frames,
        true,
        &config,
        &"192.0.2.7".to_string(),
        4242,
        77,
    );
    assert!(warned);
    assert_eq!(batches.len(), 1);
    assert_eq!(batches[0].len(), 1);
    match &batches[0][0] {
        Event::Log(log) => {
            assert_eq!(field(log, "message"), Some(&Value::Text("AAAAA".to_string())));
            assert_eq!(field(log, "host"), Some(&Value::Text("192.0.2.7".to_string())));
            assert_eq!(field(log, "port"), Some(&Value::Integer(4242)));
            assert_eq!(field(log, "timestamp"), Some(&Value::Integer(77)));
            assert_eq!(
                field(log, "source_type"),
                Some(&Value::Text("socket".to_string()))
            );
        }
        Event::Metric(_) => panic!("expected a log event"),
    }
}

#[test]
fn clock_reads_a_present_day_instant() {
    let now = telemetry_transport::clock::now_timestamp_millis();
    // well past 2001, however the host clock drifts
    assert!(now > 1_000_000_000_000);
}
