//! The shared event model: a tagged union of log and metric payloads, each
//! carrying a metadata envelope with an opaque per-event routing token.
use vstd::prelude::*;

verus! {

/// A single field value held by a log event.
#[derive(Clone, Debug, PartialEq)]
pub enum Value {
    Text(String),
    Integer(i64),
}

/// The metadata envelope attached to every event; the routing token is the
/// partition key used by the egress batcher.
#[derive(Clone, Debug, PartialEq)]
pub struct EventMetadata {
    pub splunk_hec_token: Option<String>,
}

/// A structured log record: a flat field map with unique keys.
#[derive(Clone, Debug, PartialEq)]
pub struct LogEvent {
    pub fields: Vec<(String, Value)>,
    pub metadata: EventMetadata,
}

/// True when some entry of `entries` carries the key `key`.
pub open spec fn entries_contain_key(entries: Seq<(String, Value)>, key: Seq<char>) -> bool {
    exists|i: int| 0 <= i < entries.len() && #[trigger] entries[i].0@ == key
}

/// Field maps keep at most one entry per key.
pub open spec fn entries_unique(entries: Seq<(String, Value)>) -> bool {
    forall|i: int, j: int|
        0 <= i < j < entries.len() ==> #[trigger] entries[i].0@ != #[trigger] entries[j].0@
}

impl LogEvent {
    /// A well-formed log event never holds two fields under one key.
    pub open spec fn wf(&self) -> bool {
        entries_unique(self.fields@)
    }

    pub fn new(metadata: EventMetadata) -> (r: LogEvent)
        ensures
            r.fields@ =~= Seq::<(String, Value)>::empty(),
            r.metadata == metadata,
            r.wf(),
    {
        LogEvent { fields: Vec::new(), metadata }
    }

    /// The first value stored under `key`, if any.
    pub fn get(&self, key: &str) -> (r: Option<&Value>)
        ensures
            r is Some <==> entries_contain_key(self.fields@, key@),
            match r {
                Some(v) => exists|i: int|
                    0 <= i < self.fields@.len() && #[trigger] self.fields@[i].0@ == key@
                        && self.fields@[i].1 == *v,
                None => true,
            },
    {
        let key_owned: String = key.to_owned();
        let n = self.fields.len();
        let mut i: usize = 0;
        while i < n
            invariant
                key_owned@ == key@,
                n == self.fields@.len(),
                i <= n,
                forall|k: int| 0 <= k < i ==> #[trigger] self.fields@[k].0@ != key@,
            decreases n - i,
        {
            if self.fields[i].0 == key_owned {
                return Some(&self.fields[i].1);
            }
            i += 1;
        }
        None
    }

    /// Inserts `value` under `key`, replacing the value in place when the key
    /// is already present and appending a new field when it is not.
    pub fn insert(&mut self, key: String, value: Value)
        requires
            old(self).wf(),
        ensures
            final(self).wf(),
            final(self).metadata == old(self).metadata,
            entries_contain_key(final(self).fields@, key@),
            forall|k: Seq<char>|
                #[trigger] entries_contain_key(old(self).fields@, k) ==> entries_contain_key(
                    final(self).fields@,
                    k,
                ),
            !entries_contain_key(old(self).fields@, key@) ==> final(self).fields@ == old(
                self,
            ).fields@.push((key, value)),
            entries_contain_key(old(self).fields@, key@) ==> {
                &&& final(self).fields@.len() == old(self).fields@.len()
                &&& (forall|i: int|
                    0 <= i < old(self).fields@.len() && (#[trigger] old(self).fields@[i]).0@ != key@
                        ==> final(self).fields@[i] == old(self).fields@[i])
                &&& (forall|i: int|
                    0 <= i < old(self).fields@.len() && (#[trigger] old(self).fields@[i]).0@ == key@
                        ==> final(self).fields@[i] == (key, value))
            },
    {
        let n = self.fields.len();
        let mut i: usize = 0;
        while i < n
            invariant
                *self == *old(self),
                old(self).wf(),
                n == self.fields@.len(),
                i <= n,
                forall|k: int| 0 <= k < i ==> #[trigger] self.fields@[k].0@ != key@,
            decreases n - i,
        {
            if self.fields[i].0 == key {
                self.fields.set(i, (key, value));
                proof {
                    assert(forall|j: int|
                        0 <= j < self.fields@.len() && j != i ==> self.fields@[j] == old(
                            self,
                        ).fields@[j]);
                    assert(self.fields@[i as int].0@ == key@);
                    assert(entries_unique(self.fields@));
                    assert forall|k: Seq<char>|
                        entries_contain_key(old(self).fields@, k) implies entries_contain_key(
                        self.fields@,
                        k,
                    ) by {
                        if k == key@ {
                            assert(self.fields@[i as int].0@ == k);
                        } else {
                            let j = choose|j: int|
                                0 <= j < old(self).fields@.len() && (#[trigger] old(
                                    self,
                                ).fields@[j]).0@ == k;
                            assert(self.fields@[j] == old(self).fields@[j]);
                        }
                    }
                }
                return;
            }
            i += 1;
        }
        self.fields.push((key, value));
        proof {
            assert(self.fields@[self.fields@.len() - 1].0@ == key@);
            assert forall|k: Seq<char>|
                entries_contain_key(old(self).fields@, k) implies entries_contain_key(
                self.fields@,
                k,
            ) by {
                let j = choose|j: int|
                    0 <= j < old(self).fields@.len() && (#[trigger] old(self).fields@[j]).0@ == k;
                assert(self.fields@[j] == old(self).fields@[j]);
            }
        }
    }

    /// Inserts `value` under `key` only when no field with that key exists
    /// yet; an occupied key leaves the event untouched.
    pub fn insert_if_empty(&mut self, key: String, value: Value)
        requires
            old(self).wf(),
        ensures
            final(self).wf(),
            final(self).metadata == old(self).metadata,
            entries_contain_key(final(self).fields@, key@),
            forall|k: Seq<char>|
                #[trigger] entries_contain_key(old(self).fields@, k) ==> entries_contain_key(
                    final(self).fields@,
                    k,
                ),
            entries_contain_key(old(self).fields@, key@) ==> final(self).fields@
                == old(self).fields@,
            !entries_contain_key(old(self).fields@, key@) ==> final(self).fields@
                == old(self).fields@.push((key, value)),
    {
        let n = self.fields.len();
        let mut i: usize = 0;
        while i < n
            invariant
                *self == *old(self),
                old(self).wf(),
                n == self.fields@.len(),
                i <= n,
                forall|k: int| 0 <= k < i ==> #[trigger] self.fields@[k].0@ != key@,
            decreases n - i,
        {
            if self.fields[i].0 == key {
                proof {
                    assert(self.fields@[i as int].0@ == key@);
                }
                return;
            }
            i += 1;
        }
        self.fields.push((key, value));
        proof {
            assert(self.fields@[self.fields@.len() - 1].0@ == key@);
            assert forall|k: Seq<char>|
                entries_contain_key(old(self).fields@, k) implies entries_contain_key(
                self.fields@,
                k,
            ) by {
                let j = choose|j: int|
                    0 <= j < old(self).fields@.len() && (#[trigger] old(self).fields@[j]).0@ == k;
                assert(self.fields@[j] == old(self).fields@[j]);
            }
        }
    }
}

/// The sample payload of a metric event. The egress sink understands counter
/// and gauge samples; the remaining shapes are carried but not dispatchable.
#[derive(Clone, Debug, PartialEq)]
pub enum MetricValue {
    Counter { value: i64 },
    Gauge { value: i64 },
    Distribution { samples: Vec<i64> },
    Histogram { buckets: Vec<i64> },
}

/// Whether a sample is a running total or an increment over the last one.
#[derive(Clone, Copy, Debug, PartialEq, Eq, Structural)]
pub enum MetricKind {
    Absolute,
    Incremental,
}

/// A metric sample with its identity, free-form tags, and envelope.
#[derive(Clone, Debug, PartialEq)]
pub struct Metric {
    pub name: String,
    pub namespace: Option<String>,
    pub tags: Vec<(String, String)>,
    pub kind: MetricKind,
    pub value: MetricValue,
    pub metadata: EventMetadata,
}

/// The first tag value stored under `key`, if any.
pub open spec fn spec_tag_value(tags: Seq<(String, String)>, key: Seq<char>) -> Option<String>
    decreases tags.len(),
{
    if tags.len() == 0 {
        None
    } else if tags[0].0@ == key {
        Some(tags[0].1)
    } else {
        spec_tag_value(tags.skip(1), key)
    }
}

impl Metric {
    /// Looks a tag up by name, handing back a copy of its value.
    pub fn tag_value(&self, key: &str) -> (r: Option<String>)
        ensures
            r == spec_tag_value(self.tags@, key@),
    {
        let key_owned: String = key.to_owned();
        let n = self.tags.len();
        let mut i: usize = 0;
        proof {
            assert(self.tags@.skip(0) =~= self.tags@);
        }
        while i < n
            invariant
                key_owned@ == key@,
                n == self.tags@.len(),
                i <= n,
                spec_tag_value(self.tags@, key@) == spec_tag_value(self.tags@.skip(i as int), key@),
            decreases n - i,
        {
            proof {
                assert(self.tags@.skip(i as int)[0] == self.tags@[i as int]);
                assert(self.tags@.skip(i as int).skip(1) =~= self.tags@.skip(i + 1));
            }
            if self.tags[i].0 == key_owned {
                return Some(self.tags[i].1.clone());
            }
            i += 1;
        }
        proof {
            assert(self.tags@.skip(n as int) =~= Seq::<(String, String)>::empty());
        }
        None
    }
}

/// True of the metric shapes the egress sink can serialize into a request.
pub open spec fn supported_metric_value(v: MetricValue) -> bool {
    v is Counter || v is Gauge
}

/// The bytes a field value holds beyond its fixed-size shell.
pub open spec fn spec_value_size(v: Value) -> nat {
    match v {
        Value::Text(s) => s@.len(),
        Value::Integer(_) => 0,
    }
}

/// The bytes a log event's field map holds.
pub open spec fn spec_fields_size(fields: Seq<(String, Value)>) -> nat
    decreases fields.len(),
{
    if fields.len() == 0 {
        0
    } else {
        spec_fields_size(fields.drop_last()) + fields.last().0@.len() + spec_value_size(
            fields.last().1,
        )
    }
}

/// The bytes a metric's tag list holds.
pub open spec fn spec_tags_size(tags: Seq<(String, String)>) -> nat
    decreases tags.len(),
{
    if tags.len() == 0 {
        0
    } else {
        spec_tags_size(tags.drop_last()) + tags.last().0@.len() + tags.last().1@.len()
    }
}

/// The estimated memory footprint of an event: the characters its strings
/// hold.
pub open spec fn spec_event_size(e: Event) -> nat {
    match e {
        Event::Log(log) => spec_fields_size(log.fields@),
        Event::Metric(m) => m.name@.len() + (match m.namespace {
            Some(ns) => ns@.len(),
            None => 0,
        }) + spec_tags_size(m.tags@),
    }
}

/// `n` clipped to what a usize can hold.
pub open spec fn clamp_usize(n: nat) -> nat {
    if n > usize::MAX {
        usize::MAX as nat
    } else {
        n
    }
}

/// An observability event: either a structured log record or a metric sample.
#[derive(Clone, Debug, PartialEq)]
pub enum Event {
    Log(LogEvent),
    Metric(Metric),
}

impl Event {
    pub open spec fn spec_metadata(&self) -> EventMetadata {
        match self {
            Event::Log(log) => log.metadata,
            Event::Metric(metric) => metric.metadata,
        }
    }

    pub fn metadata(&self) -> (r: &EventMetadata)
        ensures
            *r == self.spec_metadata(),
    {
        match self {
            Event::Log(log) => &log.metadata,
            Event::Metric(metric) => &metric.metadata,
        }
    }

    /// The event's estimated memory footprint, captured before any
    /// transformation; saturates at the machine's word range.
    pub fn estimated_size(&self) -> (r: usize)
        ensures
            r == clamp_usize(spec_event_size(*self)),
    {
        match self {
            Event::Log(log) => {
                let n = log.fields.len();
                let mut acc: usize = 0;
                let mut i: usize = 0;
                proof {
                    assert(log.fields@.take(0) =~= Seq::<(String, Value)>::empty());
                }
                while i < n
                    invariant
                        n == log.fields@.len(),
                        i <= n,
                        acc == clamp_usize(spec_fields_size(log.fields@.take(i as int))),
                    decreases n - i,
                {
                    proof {
                        assert(log.fields@.take(i + 1).drop_last() =~= log.fields@.take(i as int));
                        assert(log.fields@.take(i + 1).last() == log.fields@[i as int]);
                    }
                    acc = acc.saturating_add(log.fields[i].0.as_str().unicode_len());
                    match &log.fields[i].1 {
                        Value::Text(s) => {
                            acc = acc.saturating_add(s.as_str().unicode_len());
                        },
                        Value::Integer(_) => {},
                    }
                    i += 1;
                }
                proof {
                    assert(log.fields@.take(n as int) =~= log.fields@);
                }
                acc
            },
            Event::Metric(m) => {
                let mut acc: usize = m.name.as_str().unicode_len();
                if let Some(ns) = &m.namespace {
                    acc = acc.saturating_add(ns.as_str().unicode_len());
                }
                let n = m.tags.len();
                let mut i: usize = 0;
                let ghost base = m.name@.len() + (match &m.namespace {
                    Some(ns) => ns@.len(),
                    None => 0nat,
                });
                proof {
                    assert(m.tags@.take(0) =~= Seq::<(String, String)>::empty());
                    assert(acc == clamp_usize(base + spec_tags_size(m.tags@.take(0))));
                }
                while i < n
                    invariant
                        n == m.tags@.len(),
                        i <= n,
                        base == m.name@.len() + (match &m.namespace {
                            Some(ns) => ns@.len(),
                            None => 0nat,
                        }),
                        acc == clamp_usize(base + spec_tags_size(m.tags@.take(i as int))),
                    decreases n - i,
                {
                    proof {
                        assert(m.tags@.take(i + 1).drop_last() =~= m.tags@.take(i as int));
                        assert(m.tags@.take(i + 1).last() == m.tags@[i as int]);
                    }
                    acc = acc.saturating_add(m.tags[i].0.as_str().unicode_len());
                    acc = acc.saturating_add(m.tags[i].1.as_str().unicode_len());
                    i += 1;
                }
                proof {
                    assert(m.tags@.take(n as int) =~= m.tags@);
                }
                acc
            },
        }
    }

    /// Unwraps the metric payload; callers must know the event is a metric.
    pub fn into_metric(self) -> (r: Metric)
        requires
            self is Metric,
        ensures
            self == Event::Metric(r),
    {
        match self {
            Event::Metric(metric) => metric,
            Event::Log(_) => unreached(),
        }
    }
}

} // verus!
