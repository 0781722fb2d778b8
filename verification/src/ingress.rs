//! Ingress framer: turns datagram receipts into enriched event batches.
//!
//! The socket itself, the decoder and the output channel are outside
//! collaborators; this module holds the decisions taken between them: the
//! effective receive limit, truncation detection, which decoded frames are
//! kept, how log events are stamped with source metadata, and what each
//! receive or send outcome means for the run.
use vstd::prelude::*;

use crate::event::{entries_contain_key, Event, LogEvent, Value};

verus! {

/// Default cap, in bytes, on a single datagram.
pub const DEFAULT_MAX_LENGTH: usize = 102400;

/// Configuration of the datagram ingress.
#[derive(Clone, Debug)]
pub struct UdpConfig {
    /// The address to listen for messages on.
    pub address: String,
    /// The maximum buffer size, in bytes, of incoming messages; longer
    /// datagrams are truncated.
    pub max_length: usize,
    /// Overrides the log field that receives the peer host address.
    pub host_key: Option<String>,
    /// Overrides the log field that receives the peer port.
    pub port_key: Option<String>,
    /// The size, in bytes, of the receive buffer used for the listening
    /// socket.
    pub receive_buffer_bytes: Option<usize>,
    /// The namespace to use for logs; overrides the global setting.
    pub log_namespace: Option<bool>,
}

/// The receive limit actually applied: the configured maximum, clipped to the
/// socket receive buffer when one is requested.
pub open spec fn spec_effective_max_length(max_length: usize, receive_buffer_bytes: Option<usize>) -> usize {
    match receive_buffer_bytes {
        Some(buffer) => if buffer < max_length { buffer } else { max_length },
        None => max_length,
    }
}

impl UdpConfig {
    pub fn host_key(&self) -> (r: &Option<String>)
        ensures
            *r == self.host_key,
    {
        &self.host_key
    }

    pub fn port_key(&self) -> (r: &Option<String>)
        ensures
            *r == self.port_key,
    {
        &self.port_key
    }

    pub fn address(&self) -> (r: &String)
        ensures
            *r == self.address,
    {
        &self.address
    }

    pub fn from_address(address: String) -> (r: UdpConfig)
        ensures
            r.address == address,
            r.max_length == DEFAULT_MAX_LENGTH,
            r.host_key is None,
            r.port_key is Some && r.port_key->0@ == "port"@,
            r.receive_buffer_bytes is None,
            r.log_namespace is None,
    {
        UdpConfig {
            address,
            max_length: DEFAULT_MAX_LENGTH,
            host_key: None,
            port_key: Some("port".to_owned()),
            receive_buffer_bytes: None,
            log_namespace: None,
        }
    }

    pub fn set_log_namespace(&mut self, val: Option<bool>)
        ensures
            *final(self) == (UdpConfig { log_namespace: val, ..*old(self) }),
    {
        self.log_namespace = val;
    }

    /// Computes the receive limit for this configuration.
    pub fn effective_max_length(&self) -> (r: usize)
        ensures
            r == spec_effective_max_length(self.max_length, self.receive_buffer_bytes),
    {
        match self.receive_buffer_bytes {
            Some(buffer) => if buffer < self.max_length {
                buffer
            } else {
                self.max_length
            },
            None => self.max_length,
        }
    }
}

/// One decoder result for one frame of a datagram: either the events decoded
/// from the frame, or a failure that either spoils only this frame
/// (`can_continue`) or the whole rest of the datagram.
#[derive(Clone, Debug, PartialEq)]
pub enum DecodeResult {
    Frame(Vec<Event>),
    Failed { can_continue: bool },
}

/// The events a decoded frame contributes: the final frame of a truncated
/// datagram loses its last event, since truncation corrupts only the tail of
/// the final record.
pub open spec fn frame_kept_events(events: Seq<Event>, last: bool, truncated: bool) -> Seq<Event> {
    if last && truncated && events.len() > 0 {
        events.drop_last()
    } else {
        events
    }
}

/// The non-empty event batches a datagram's decode results yield, in order: a
/// frame-local failure is skipped, a fatal one ends the datagram, and the
/// final frame is clipped when the datagram was truncated.
pub open spec fn kept_batches(frames: Seq<DecodeResult>, truncated: bool) -> Seq<Seq<Event>>
    decreases frames.len(),
{
    if frames.len() == 0 {
        Seq::empty()
    } else {
        match frames[0] {
            DecodeResult::Failed { can_continue } => {
                if can_continue {
                    kept_batches(frames.skip(1), truncated)
                } else {
                    Seq::empty()
                }
            },
            DecodeResult::Frame(events) => {
                let kept = frame_kept_events(events@, frames.len() == 1, truncated);
                let rest = kept_batches(frames.skip(1), truncated);
                if kept.len() == 0 {
                    rest
                } else {
                    seq![kept] + rest
                }
            },
        }
    }
}

/// True when processing a truncated datagram's frames reaches the final frame
/// and finds it decoded, which is when the one truncation warning is logged.
pub open spec fn warns_on_truncation(frames: Seq<DecodeResult>, truncated: bool) -> bool
    decreases frames.len(),
{
    if frames.len() == 0 {
        false
    } else {
        match frames[0] {
            DecodeResult::Failed { can_continue } => can_continue && warns_on_truncation(
                frames.skip(1),
                truncated,
            ),
            DecodeResult::Frame(events) => {
                if frames.len() == 1 {
                    truncated
                } else {
                    warns_on_truncation(frames.skip(1), truncated)
                }
            },
        }
    }
}

/// Selects the event batches to forward from one datagram's decode results.
/// The second result says whether a truncation warning is owed.
pub fn split_frames(frames: Vec<DecodeResult>, truncated: bool) -> (r: (Vec<Vec<Event>>, bool))
    ensures
        r.0@.len() == kept_batches(frames@, truncated).len(),
        forall|i: int|
            0 <= i < r.0@.len() ==> #[trigger] r.0@[i]@ == kept_batches(frames@, truncated)[i],
        r.1 == warns_on_truncation(frames@, truncated),
{
    let ghost orig = frames@;
    let total = frames.len();
    let mut frames = frames;
    let mut collected_rev: Vec<Vec<Event>> = Vec::new();
    let mut warned = false;
    proof {
        assert(orig.skip(total as int) =~= Seq::<DecodeResult>::empty());
    }
    while frames.len() > 0
        invariant
            frames@ == orig.take(frames@.len() as int),
            frames@.len() <= total,
            total == orig.len(),
            collected_rev@.len() == kept_batches(orig.skip(frames@.len() as int), truncated).len(),
            forall|i: int|
                0 <= i < collected_rev@.len() ==> #[trigger] collected_rev@[i]@ == kept_batches(
                    orig.skip(frames@.len() as int),
                    truncated,
                )[collected_rev@.len() - 1 - i],
            warned == warns_on_truncation(orig.skip(frames@.len() as int), truncated),
        decreases frames@.len(),
    {
        let is_last = frames.len() == total;
        let ghost m = frames@.len() as int;
        let frame = frames.pop().unwrap();
        proof {
            assert(frame == orig[m - 1]);
            assert(frames@ =~= orig.take(m - 1));
            assert(orig.skip(m - 1)[0] == orig[m - 1]);
            assert(orig.skip(m - 1).skip(1) =~= orig.skip(m));
            assert(orig.skip(m - 1).len() == total - (m - 1));
        }
        match frame {
            DecodeResult::Failed { can_continue } => {
                if !can_continue {
                    collected_rev = Vec::new();
                    warned = false;
                }
            },
            DecodeResult::Frame(events) => {
                let mut events = events;
                if is_last && truncated {
                    let _ = events.pop();
                    warned = true;
                }
                if events.len() > 0 {
                    collected_rev.push(events);
                }
            },
        }
    }
    proof {
        assert(orig.skip(0) =~= orig);
    }
    let mut batches: Vec<Vec<Event>> = Vec::new();
    let ghost kept = kept_batches(orig, truncated);
    while collected_rev.len() > 0
        invariant
            collected_rev@.len() + batches@.len() == kept.len(),
            forall|i: int|
                0 <= i < collected_rev@.len() ==> #[trigger] collected_rev@[i]@ == kept[kept.len()
                    - 1 - i],
            forall|i: int| 0 <= i < batches@.len() ==> #[trigger] batches@[i]@ == kept[i],
        decreases collected_rev@.len(),
    {
        let next = collected_rev.pop().unwrap();
        batches.push(next);
    }
    (batches, warned)
}

/// The number of events carried by a sequence of batches.
pub open spec fn total_events(batches: Seq<Seq<Event>>) -> nat
    decreases batches.len(),
{
    if batches.len() == 0 {
        0
    } else {
        batches[0].len() + total_events(batches.skip(1))
    }
}

/// The events one decode result carries: none for a failure.
pub open spec fn frame_events(frame: DecodeResult) -> Seq<Event> {
    match frame {
        DecodeResult::Frame(events) => events@,
        DecodeResult::Failed { .. } => Seq::empty(),
    }
}

/// True when every frame of the datagram decoded successfully.
pub open spec fn all_frames_decoded(frames: Seq<DecodeResult>) -> bool {
    forall|i: int| 0 <= i < frames.len() ==> #[trigger] frames[i] is Frame
}

/// The number of events all frames of a datagram decode into.
pub open spec fn total_decoded(frames: Seq<DecodeResult>) -> nat
    decreases frames.len(),
{
    if frames.len() == 0 {
        0
    } else {
        frame_events(frames[0]).len() + total_decoded(frames.skip(1))
    }
}

/// Law: a datagram whose frames all decode, and whose final frame is
/// non-empty, forwards every decoded event when it was not truncated, and
/// exactly one event fewer — the last of the final frame — when it was.
pub proof fn lemma_truncation_drop(frames: Seq<DecodeResult>)
    requires
        frames.len() > 0,
        all_frames_decoded(frames),
        frame_events(frames.last()).len() > 0,
    ensures
        total_events(kept_batches(frames, false)) == total_decoded(frames),
        total_events(kept_batches(frames, true)) + 1 == total_decoded(frames),
    decreases frames.len(),
{
    assert(frames[0] is Frame);
    let events = frame_events(frames[0]);
    if frames.len() == 1 {
        assert(frames.last() == frames[0]);
        assert(kept_batches(frames, false) == if events.len() == 0 {
            kept_batches(frames.skip(1), false)
        } else {
            seq![events] + kept_batches(frames.skip(1), false)
        });
        assert(frames.skip(1) =~= Seq::<DecodeResult>::empty());
        assert(total_events(seq![events].skip(1)) == 0);
        assert(total_events(seq![events]) == events.len());
        let clipped = events.drop_last();
        assert(kept_batches(frames, true) == if clipped.len() == 0 {
            kept_batches(frames.skip(1), true)
        } else {
            seq![clipped] + kept_batches(frames.skip(1), true)
        });
        if clipped.len() > 0 {
            assert(total_events(seq![clipped].skip(1)) == 0);
            assert(total_events(seq![clipped]) == clipped.len());
        }
        assert(total_decoded(frames.skip(1)) == 0) by {
            reveal_with_fuel(total_decoded, 1);
            assert(frames.skip(1).len() == 0);
        }
        assert(total_decoded(frames) == frame_events(frames[0]).len() + total_decoded(
            frames.skip(1),
        ));
        assert(total_decoded(frames) == events.len());
    } else {
        let rest = frames.skip(1);
        assert(rest.len() == frames.len() - 1);
        assert(forall|i: int| 0 <= i < rest.len() ==> rest[i] == frames[i + 1]);
        assert(rest.last() == frames.last());
        lemma_truncation_drop(rest);
        assert(frame_kept_events(events, false, false) == events);
        assert(frame_kept_events(events, false, true) == events);
        if events.len() > 0 {
            assert((seq![events] + kept_batches(rest, false)).skip(1) =~= kept_batches(
                rest,
                false,
            ));
            assert((seq![events] + kept_batches(rest, true)).skip(1) =~= kept_batches(rest, true));
        }
    }
}

/// The log field that receives the peer address: the configured override, or
/// the standard host field.
pub open spec fn spec_host_key(config: UdpConfig) -> Seq<char> {
    match config.host_key {
        Some(k) => k@,
        None => "host"@,
    }
}

/// The log field that receives the peer port: the configured override, or the
/// standard port field.
pub open spec fn spec_port_key(config: UdpConfig) -> Seq<char> {
    match config.port_key {
        Some(k) => k@,
        None => "port"@,
    }
}

/// How a log event after source-metadata stamping relates to the one before:
/// the envelope fields carry the ingestion timestamp and the source name, the
/// peer address and port stand at their configured fields unless those fields
/// were already occupied, and nothing else moved.
pub open spec fn log_enriched(
    before: LogEvent,
    after: LogEvent,
    hk: Seq<char>,
    pk: Seq<char>,
    ip: Seq<char>,
    port: u16,
    now: i64,
) -> bool {
    &&& after.wf()
    &&& after.metadata == before.metadata
    &&& entries_contain_key(after.fields@, "timestamp"@)
    &&& entries_contain_key(after.fields@, "source_type"@)
    &&& entries_contain_key(after.fields@, hk)
    &&& entries_contain_key(after.fields@, pk)
    &&& (forall|i: int|
        0 <= i < after.fields@.len() && (#[trigger] after.fields@[i]).0@ == "timestamp"@
            ==> after.fields@[i].1 == Value::Integer(now))
    &&& (forall|i: int|
        0 <= i < after.fields@.len() && (#[trigger] after.fields@[i]).0@ == "source_type"@
            ==> (after.fields@[i].1 matches Value::Text(s) && s@ == "socket"@))
    &&& (hk != "timestamp"@ && hk != "source_type"@ ==> {
        &&& (forall|i: int|
            0 <= i < before.fields@.len() && (#[trigger] before.fields@[i]).0@ == hk
                ==> after.fields@[i] == before.fields@[i])
        &&& (!entries_contain_key(before.fields@, hk) ==> (forall|i: int|
            0 <= i < after.fields@.len() && (#[trigger] after.fields@[i]).0@ == hk
                ==> (after.fields@[i].1 matches Value::Text(s) && s@ == ip)))
    })
    &&& (pk != "timestamp"@ && pk != "source_type"@ ==> {
        &&& (forall|i: int|
            0 <= i < before.fields@.len() && (#[trigger] before.fields@[i]).0@ == pk
                ==> after.fields@[i] == before.fields@[i])
        &&& (!entries_contain_key(before.fields@, pk) && pk != hk ==> (forall|i: int|
            0 <= i < after.fields@.len() && (#[trigger] after.fields@[i]).0@ == pk
                ==> after.fields@[i].1 == Value::Integer(port as i64)))
    })
}

/// Stamps one log event with the ingestion envelope (timestamp, source name)
/// and, where the fields are still empty, the peer address and port.
pub fn enrich_log_event(
    log: &mut LogEvent,
    config: &UdpConfig,
    peer_ip: String,
    peer_port: u16,
    now_millis: i64,
)
    requires
        old(log).wf(),
    ensures
        log_enriched(
            *old(log),
            *final(log),
            spec_host_key(*config),
            spec_port_key(*config),
            peer_ip@,
            peer_port,
            now_millis,
        ),
{
    proof {
        reveal_strlit("timestamp");
        reveal_strlit("source_type");
    }
    let ghost s0 = log.fields@;
    let ghost hk = spec_host_key(*config);
    let ghost pk = spec_port_key(*config);
    log.insert("timestamp".to_owned(), Value::Integer(now_millis));
    let ghost s1 = log.fields@;
    proof {
        assert forall|i: int|
            0 <= i < s1.len() && (#[trigger] s1[i]).0@ == "timestamp"@ implies s1[i].1
            == Value::Integer(now_millis) by {
            if entries_contain_key(s0, "timestamp"@) {
                if s0[i].0@ != "timestamp"@ {
                    assert(s1[i] == s0[i]);
                }
            } else {
                if i < s0.len() {
                    assert(s1[i] == s0[i]);
                    assert(s0[i].0@ != "timestamp"@);
                }
            }
        }
        assert forall|i: int|
            0 <= i < s1.len() implies (#[trigger] s1[i]).0@ == "timestamp"@ || (i < s0.len()
            && s1[i] == s0[i]) by {
            if entries_contain_key(s0, "timestamp"@) {
                if s0[i].0@ != "timestamp"@ {
                    assert(s1[i] == s0[i]);
                }
            }
        }
    }
    log.insert("source_type".to_owned(), Value::Text("socket".to_owned()));
    let ghost s2 = log.fields@;
    proof {
        reveal_strlit("timestamp");
        reveal_strlit("source_type");
        assert("timestamp"@.len() == 9);
        assert("source_type"@.len() == 11);
        assert("timestamp"@ != "source_type"@);
        assert forall|i: int|
            0 <= i < s2.len() implies ((#[trigger] s2[i]).0@ == "source_type"@ && (
            s2[i].1 matches Value::Text(s) && s@ == "socket"@)) || (i < s1.len() && s2[i]
            == s1[i]) by {
            if entries_contain_key(s1, "source_type"@) {
                if s1[i].0@ != "source_type"@ {
                    assert(s2[i] == s1[i]);
                } else {
                    assert(s2[i].0@ == "source_type"@);
                }
            } else {
                if i < s1.len() {
                    assert(s2[i] == s1[i]);
                }
            }
        }
        assert(entries_contain_key(s2, "timestamp"@));
        assert(entries_contain_key(s2, "source_type"@));
    }
    let host_key = match config.host_key() {
        Some(k) => k.clone(),
        None => "host".to_owned(),
    };
    proof {
        assert(host_key@ == hk);
    }
    log.insert_if_empty(host_key, Value::Text(peer_ip));
    let ghost s3 = log.fields@;
    let port_key = match config.port_key() {
        Some(k) => k.clone(),
        None => "port".to_owned(),
    };
    proof {
        assert(port_key@ == pk);
        assert(entries_contain_key(s3, hk));
    }
    log.insert_if_empty(port_key, Value::Integer(peer_port as i64));
    let ghost s4 = log.fields@;
    proof {
        assert(entries_contain_key(s4, pk));
        assert(entries_contain_key(s4, hk));
        assert(entries_contain_key(s4, "timestamp"@));
        assert(entries_contain_key(s4, "source_type"@));
        // the envelope values survive the two insert-if-empty steps, which
        // only ever append keys that were absent
        assert forall|i: int|
            0 <= i < s4.len() && (#[trigger] s4[i]).0@ == "timestamp"@ implies s4[i].1
            == Value::Integer(now_millis) by {
            if i < s3.len() {
                if i < s2.len() {
                } else {
                    assert(!entries_contain_key(s2, hk));
                    assert(s3[i].0@ == hk);
                }
            } else {
                assert(!entries_contain_key(s3, pk));
                assert(s4[i].0@ == pk);
                assert(entries_contain_key(s3, "timestamp"@));
            }
        }
        assert forall|i: int|
            0 <= i < s4.len() && (#[trigger] s4[i]).0@ == "source_type"@ implies (
        s4[i].1 matches Value::Text(s) && s@ == "socket"@) by {
            if i < s3.len() {
                if i < s2.len() {
                } else {
                    assert(!entries_contain_key(s2, hk));
                    assert(s3[i].0@ == hk);
                    assert(entries_contain_key(s2, "source_type"@));
                }
            } else {
                assert(!entries_contain_key(s3, pk));
                assert(s4[i].0@ == pk);
                assert(entries_contain_key(s3, "source_type"@));
            }
        }
        if hk != "timestamp"@ && hk != "source_type"@ {
            assert forall|i: int|
                0 <= i < s0.len() && (#[trigger] s0[i]).0@ == hk implies s4[i] == s0[i] by {
                assert(s1[i] == s0[i]);
                assert(s2[i] == s1[i]);
                assert(entries_contain_key(s2, hk));
                assert(s3 == s2);
                assert(i < s3.len());
            }
            if !entries_contain_key(s0, hk) {
                assert(!entries_contain_key(s2, hk)) by {
                    assert forall|i: int|
                        0 <= i < s2.len() implies (#[trigger] s2[i]).0@ != hk by {
                        if i < s1.len() && s2[i] == s1[i] {
                            if i < s0.len() && s1[i] == s0[i] {
                                assert(s0[i].0@ != hk);
                            }
                        }
                    }
                }
                assert(s3 == s2.push((host_key, Value::Text(peer_ip))));
                assert forall|i: int|
                    0 <= i < s4.len() && (#[trigger] s4[i]).0@ == hk implies (
                s4[i].1 matches Value::Text(s) && s@ == peer_ip@) by {
                    if i < s3.len() {
                        if i < s2.len() {
                            assert(s4[i] == s3[i] && s3[i] == s2[i]);
                            assert(s2[i].0@ != hk);
                        }
                    } else {
                        assert(!entries_contain_key(s3, pk));
                        assert(s4[i].0@ == pk);
                        assert(entries_contain_key(s3, hk));
                    }
                }
            }
        }
        if pk != "timestamp"@ && pk != "source_type"@ {
            assert forall|i: int|
                0 <= i < s0.len() && (#[trigger] s0[i]).0@ == pk implies s4[i] == s0[i] by {
                assert(s1[i] == s0[i]);
                assert(s2[i] == s1[i]);
                if !entries_contain_key(s2, hk) {
                    assert(s3[i] == s2[i]);
                } else {
                    assert(s3 == s2);
                }
                assert(entries_contain_key(s3, pk));
            }
            if !entries_contain_key(s0, pk) && pk != hk {
                assert(!entries_contain_key(s3, pk)) by {
                    assert forall|i: int|
                        0 <= i < s3.len() implies (#[trigger] s3[i]).0@ != pk by {
                        if i < s2.len() && s3[i] == s2[i] {
                            if i < s1.len() && s2[i] == s1[i] {
                                if i < s0.len() && s1[i] == s0[i] {
                                    assert(s0[i].0@ != pk);
                                }
                            }
                        } else {
                            assert(s3[i].0@ == hk);
                        }
                    }
                }
                assert(s4 == s3.push((port_key, Value::Integer(peer_port as i64))));
                assert forall|i: int|
                    0 <= i < s4.len() && (#[trigger] s4[i]).0@ == pk implies s4[i].1
                    == Value::Integer(peer_port as i64) by {
                    if i < s3.len() {
                        assert(s3[i].0@ != pk);
                    }
                }
            }
        }
    }
}

/// How an enriched event relates to the received one: log events are stamped,
/// metric events pass through untouched.
pub open spec fn event_enriched(
    before: Event,
    after: Event,
    hk: Seq<char>,
    pk: Seq<char>,
    ip: Seq<char>,
    port: u16,
    now: i64,
) -> bool {
    match before {
        Event::Log(lb) => after matches Event::Log(la) && log_enriched(lb, la, hk, pk, ip, port, now),
        Event::Metric(_) => after == before,
    }
}

/// Stamps every log event of one forwarded batch with ingestion metadata.
pub fn enrich_batch(
    events: Vec<Event>,
    config: &UdpConfig,
    peer_ip: &String,
    peer_port: u16,
    now_millis: i64,
) -> (r: Vec<Event>)
    requires
        forall|i: int|
            0 <= i < events@.len() ==> (#[trigger] events@[i] matches Event::Log(log)
                ==> log.wf()),
    ensures
        r@.len() == events@.len(),
        forall|i: int|
            0 <= i < events@.len() ==> event_enriched(
                events@[i],
                #[trigger] r@[i],
                spec_host_key(*config),
                spec_port_key(*config),
                peer_ip@,
                peer_port,
                now_millis,
            ),
{
    let ghost orig = events@;
    let mut rest = events;
    let mut rev: Vec<Event> = Vec::new();
    while rest.len() > 0
        invariant
            rest@.len() + rev@.len() == orig.len(),
            rest@ == orig.take(rest@.len() as int),
            forall|i: int| 0 <= i < rev@.len() ==> #[trigger] rev@[i] == orig[orig.len() - 1 - i],
        decreases rest@.len(),
    {
        let ghost m = rest@.len() as int;
        let ev = rest.pop().unwrap();
        proof {
            assert(ev == orig[m - 1]);
            assert(rest@ =~= orig.take(m - 1));
        }
        rev.push(ev);
    }
    let mut out: Vec<Event> = Vec::new();
    while rev.len() > 0
        invariant
            rev@.len() + out@.len() == orig.len(),
            forall|i: int| 0 <= i < rev@.len() ==> #[trigger] rev@[i] == orig[orig.len() - 1 - i],
            forall|i: int|
                0 <= i < orig.len() ==> (#[trigger] orig[i] matches Event::Log(log) ==> log.wf()),
            forall|i: int|
                0 <= i < out@.len() ==> event_enriched(
                    orig[i],
                    #[trigger] out@[i],
                    spec_host_key(*config),
                    spec_port_key(*config),
                    peer_ip@,
                    peer_port,
                    now_millis,
                ),
        decreases rev@.len(),
    {
        let ev = rev.pop().unwrap();
        proof {
            assert(ev == orig[out@.len() as int]);
        }
        match ev {
            Event::Log(log) => {
                let mut log = log;
                enrich_log_event(&mut log, config, peer_ip.clone(), peer_port, now_millis);
                out.push(Event::Log(log));
            },
            other => {
                out.push(other);
            },
        }
    }
    out
}

/// True when every log event of the batch is well-formed.
pub open spec fn batch_logs_wf(events: Seq<Event>) -> bool {
    forall|i: int|
        0 <= i < events.len() ==> ((#[trigger] events[i]) matches Event::Log(log) ==> log.wf())
}

/// True when every log event of every decoded frame is well-formed.
pub open spec fn frames_logs_wf(frames: Seq<DecodeResult>) -> bool {
    forall|b: int| 0 <= b < frames.len() ==> batch_logs_wf(frame_events(#[trigger] frames[b]))
}

/// The batches a datagram forwards inherit well-formedness from its frames.
proof fn lemma_kept_batches_wf(frames: Seq<DecodeResult>, truncated: bool)
    requires
        frames_logs_wf(frames),
    ensures
        forall|b: int|
            0 <= b < kept_batches(frames, truncated).len() ==> batch_logs_wf(
                #[trigger] kept_batches(frames, truncated)[b],
            ),
    decreases frames.len(),
{
    if frames.len() > 0 {
        let rest = frames.skip(1);
        assert(forall|b: int| 0 <= b < rest.len() ==> rest[b] == frames[b + 1]);
        assert(frames_logs_wf(rest));
        lemma_kept_batches_wf(rest, truncated);
        assert forall|b: int|
            0 <= b < kept_batches(frames, truncated).len() implies batch_logs_wf(
            #[trigger] kept_batches(frames, truncated)[b],
        ) by {
            match frames[0] {
                DecodeResult::Failed { can_continue } => {
                    assert(kept_batches(frames, truncated) == kept_batches(rest, truncated));
                    assert(batch_logs_wf(kept_batches(rest, truncated)[b]));
                },
                DecodeResult::Frame(events) => {
                    let kept0 = frame_kept_events(events@, frames.len() == 1, truncated);
                    assert(batch_logs_wf(frame_events(frames[0])));
                    assert(batch_logs_wf(kept0)) by {
                        assert(forall|i: int| 0 <= i < kept0.len() ==> kept0[i] == events@[i]);
                    }
                    if kept0.len() == 0 {
                        assert(kept_batches(frames, truncated) == kept_batches(rest, truncated));
                        assert(batch_logs_wf(kept_batches(rest, truncated)[b]));
                    } else {
                        assert(kept_batches(frames, truncated) == seq![kept0] + kept_batches(
                            rest,
                            truncated,
                        ));
                        if b == 0 {
                            assert(kept_batches(frames, truncated)[0] == kept0);
                        } else {
                            assert(kept_batches(frames, truncated)[b] == kept_batches(
                                rest,
                                truncated,
                            )[b - 1]);
                            assert(batch_logs_wf(kept_batches(rest, truncated)[b - 1]));
                        }
                    }
                },
            }
        }
    }
}

/// How each enriched batch relates to the decoded one it came from.
pub open spec fn batch_enriched(
    before: Seq<Event>,
    after: Seq<Event>,
    hk: Seq<char>,
    pk: Seq<char>,
    ip: Seq<char>,
    port: u16,
    now: i64,
) -> bool {
    &&& after.len() == before.len()
    &&& (forall|i: int|
        0 <= i < before.len() ==> event_enriched(
            before[i],
            #[trigger] after[i],
            hk,
            pk,
            ip,
            port,
            now,
        ))
}

/// Handles one received datagram: selects the event batches its decode
/// results yield — clipping the final frame when the datagram was truncated —
/// and stamps every kept log event with ingestion metadata. The second result
/// says whether the one truncation warning is owed.
pub fn process_datagram(
    frames: Vec<DecodeResult>,
    truncated: bool,
    config: &UdpConfig,
    peer_ip: &String,
    peer_port: u16,
    now_millis: i64,
) -> (r: (Vec<Vec<Event>>, bool))
    requires
        frames_logs_wf(frames@),
    ensures
        r.1 == warns_on_truncation(frames@, truncated),
        r.0@.len() == kept_batches(frames@, truncated).len(),
        forall|b: int|
            0 <= b < r.0@.len() ==> batch_enriched(
                kept_batches(frames@, truncated)[b],
                #[trigger] r.0@[b]@,
                spec_host_key(*config),
                spec_port_key(*config),
                peer_ip@,
                peer_port,
                now_millis,
            ),
{
    let ghost kept = kept_batches(frames@, truncated);
    proof {
        lemma_kept_batches_wf(frames@, truncated);
    }
    let (batches, warned) = split_frames(frames, truncated);
    let mut rest = batches;
    let mut rev: Vec<Vec<Event>> = Vec::new();
    let ghost total = rest@.len();
    while rest.len() > 0
        invariant
            rest@.len() + rev@.len() == total,
            total == kept.len(),
            forall|b: int| 0 <= b < rest@.len() ==> #[trigger] rest@[b]@ == kept[b],
            forall|b: int| 0 <= b < rev@.len() ==> #[trigger] rev@[b]@ == kept[total - 1 - b],
        decreases rest@.len(),
    {
        let ghost m = rest@.len() as int;
        let batch = rest.pop().unwrap();
        rev.push(batch);
    }
    let mut out: Vec<Vec<Event>> = Vec::new();
    while rev.len() > 0
        invariant
            rev@.len() + out@.len() == total,
            total == kept.len(),
            frames_logs_wf(frames@),
            forall|b: int| 0 <= b < rev@.len() ==> #[trigger] rev@[b]@ == kept[total - 1 - b],
            forall|b: int|
                0 <= b < kept.len() ==> batch_logs_wf(#[trigger] kept[b]),
            forall|b: int|
                0 <= b < out@.len() ==> batch_enriched(
                    kept[b],
                    #[trigger] out@[b]@,
                    spec_host_key(*config),
                    spec_port_key(*config),
                    peer_ip@,
                    peer_port,
                    now_millis,
                ),
        decreases rev@.len(),
    {
        let ghost b = out@.len() as int;
        let batch = rev.pop().unwrap();
        proof {
            assert(batch@ == kept[b]);
        }
        let enriched = enrich_batch(batch, config, peer_ip, peer_port, now_millis);
        proof {
            assert(batch_enriched(
                kept[b],
                enriched@,
                spec_host_key(*config),
                spec_port_key(*config),
                peer_ip@,
                peer_port,
                now_millis,
            ));
        }
        out.push(enriched);
    }
    (out, warned)
}

/// What one pass at the socket produced: a datagram of `byte_size` bytes, a
/// platform-reported oversize receive error, any other receive error, or a
/// resolved shutdown signal winning the race.
#[derive(Clone, Copy, Debug, PartialEq, Eq, Structural)]
pub enum ReceiveEvent {
    Datagram { byte_size: usize },
    OversizeError,
    FatalError,
    ShutdownRequested,
}

/// What the framer does next after one receive outcome.
#[derive(Clone, Copy, Debug, PartialEq, Eq, Structural)]
pub enum ReceiveAction {
    /// Decode and forward the datagram, clipped when it was truncated.
    ProcessDatagram { truncated: bool },
    /// Drop the datagram and keep receiving.
    DiscardDatagram,
    /// Leave the loop and report a clean run.
    StopClean,
    /// Leave the loop and report a fatal receive failure.
    StopFatal,
}

/// The framer's decision for one receive outcome: shutdown ends the run
/// cleanly at once, an oversize datagram is discarded, any other receive
/// error is fatal, and a received datagram is processed, marked truncated
/// exactly when one byte more than the limit was read.
pub open spec fn spec_receive_action(ev: ReceiveEvent, max_length: usize) -> ReceiveAction {
    match ev {
        ReceiveEvent::ShutdownRequested => ReceiveAction::StopClean,
        ReceiveEvent::OversizeError => ReceiveAction::DiscardDatagram,
        ReceiveEvent::FatalError => ReceiveAction::StopFatal,
        ReceiveEvent::Datagram { byte_size } => ReceiveAction::ProcessDatagram {
            truncated: byte_size == max_length + 1,
        },
    }
}

pub fn receive_action(ev: ReceiveEvent, max_length: usize) -> (r: ReceiveAction)
    requires
        max_length < usize::MAX,
    ensures
        r == spec_receive_action(ev, max_length),
{
    match ev {
        ReceiveEvent::ShutdownRequested => ReceiveAction::StopClean,
        ReceiveEvent::OversizeError => ReceiveAction::DiscardDatagram,
        ReceiveEvent::FatalError => ReceiveAction::StopFatal,
        ReceiveEvent::Datagram { byte_size } => ReceiveAction::ProcessDatagram {
            truncated: byte_size == max_length + 1,
        },
    }
}

/// What racing one channel send against the shutdown signal produced.
#[derive(Clone, Copy, Debug, PartialEq, Eq, Structural)]
pub enum SendEvent {
    Delivered,
    ChannelClosed,
    ShutdownRequested,
}

/// What the framer does next after one send outcome.
#[derive(Clone, Copy, Debug, PartialEq, Eq, Structural)]
pub enum SendAction {
    NextFrame,
    StopClean,
}

/// The framer's decision for one send outcome: a closed channel and a
/// resolved shutdown signal both end the run cleanly; a delivered batch lets
/// the loop go on.
pub open spec fn spec_send_action(ev: SendEvent) -> SendAction {
    match ev {
        SendEvent::Delivered => SendAction::NextFrame,
        SendEvent::ChannelClosed => SendAction::StopClean,
        SendEvent::ShutdownRequested => SendAction::StopClean,
    }
}

pub fn send_action(ev: SendEvent) -> (r: SendAction)
    ensures
        r == spec_send_action(ev),
{
    match ev {
        SendEvent::Delivered => SendAction::NextFrame,
        SendEvent::ChannelClosed => SendAction::StopClean,
        SendEvent::ShutdownRequested => SendAction::StopClean,
    }
}

/// Law: a resolved shutdown signal at either suspension point — the socket
/// receive or the channel send — stops the run cleanly, whatever datagram or
/// batch was in flight.
pub proof fn lemma_shutdown_clean(max_length: usize)
    ensures
        spec_receive_action(ReceiveEvent::ShutdownRequested, max_length)
            == ReceiveAction::StopClean,
        spec_send_action(SendEvent::ShutdownRequested) == SendAction::StopClean,
{
}

} // verus!
