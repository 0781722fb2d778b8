//! Partitioned batching: processed events accumulate per partition key until
//! the configured item-count limit fills a batch or its time window closes,
//! whichever triggers first. Different keys are batched independently, and
//! within one key arrival order is preserved.
use vstd::prelude::*;

use crate::egress::HecProcessedEvent;

verus! {

/// The bounds of one batch: a maximum item count and a maximum accumulation
/// time.
#[derive(Clone, Copy, Debug, PartialEq, Eq, Structural)]
pub struct BatcherSettings {
    pub max_events: usize,
    pub timeout_millis: i64,
}

/// One partition's open batch: its key, the items gathered so far, and the
/// instant at which the time window closes.
#[derive(Clone, Debug)]
pub struct PendingBatch {
    pub key: Option<String>,
    pub items: Vec<HecProcessedEvent>,
    pub deadline: i64,
}

/// When a new partition's window closes: `timeout` past `now`, clipped to
/// the representable range.
pub open spec fn spec_deadline(now: i64, timeout: i64) -> i64 {
    if i64::MIN <= now + timeout <= i64::MAX {
        (now + timeout) as i64
    } else {
        i64::MAX
    }
}

/// The view of an optional partition key.
pub open spec fn spec_key_view(k: Option<String>) -> Option<Seq<char>> {
    match k {
        Some(s) => Some(s@),
        None => None,
    }
}

/// The partition key of one processed event: its routing token.
pub open spec fn spec_item_key(item: HecProcessedEvent) -> Option<Seq<char>> {
    spec_key_view(item.event.metadata.splunk_hec_token)
}

/// True when every item of the batch carries the partition key `key`.
pub open spec fn batch_uniform(items: Seq<HecProcessedEvent>, key: Option<Seq<char>>) -> bool {
    forall|i: int| 0 <= i < items.len() ==> spec_item_key(#[trigger] items[i]) == key
}

/// True when `a` and `b` are the same partition key.
pub fn keys_match(a: &Option<String>, b: &Option<String>) -> (r: bool)
    ensures
        r == (spec_key_view(*a) == spec_key_view(*b)),
{
    match (a, b) {
        (None, None) => true,
        (Some(x), Some(y)) => *x == *y,
        _ => false,
    }
}

/// Copies a partition key.
pub(crate) fn clone_key(k: &Option<String>) -> (r: Option<String>)
    ensures
        r == *k,
{
    match k {
        Some(s) => Some(s.clone()),
        None => None,
    }
}

/// The open batches of `pending` whose window is closed at `now`, in order.
pub open spec fn spec_expired(pending: Seq<PendingBatch>, now: i64) -> Seq<PendingBatch>
    decreases pending.len(),
{
    if pending.len() == 0 {
        Seq::empty()
    } else {
        let rest = spec_expired(pending.drop_last(), now);
        if pending.last().deadline <= now {
            rest.push(pending.last())
        } else {
            rest
        }
    }
}

/// The open batches of `pending` whose window is still open at `now`, in
/// order.
pub open spec fn spec_live(pending: Seq<PendingBatch>, now: i64) -> Seq<PendingBatch>
    decreases pending.len(),
{
    if pending.len() == 0 {
        Seq::empty()
    } else {
        let rest = spec_live(pending.drop_last(), now);
        if pending.last().deadline > now {
            rest.push(pending.last())
        } else {
            rest
        }
    }
}

/// Groups processed events into size- and time-bounded batches, one open
/// batch per partition key.
pub struct PartitionBatcher {
    pub settings: BatcherSettings,
    pub pending: Vec<PendingBatch>,
}

impl PartitionBatcher {
    /// Every open batch is non-empty, below the item-count limit, uniform in
    /// its key, and no two open batches share a key.
    pub open spec fn wf(&self) -> bool {
        &&& self.settings.max_events > 0
        &&& (forall|i: int|
            0 <= i < self.pending@.len() ==> {
                let b = #[trigger] self.pending@[i];
                0 < b.items@.len() < self.settings.max_events && batch_uniform(
                    b.items@,
                    spec_key_view(b.key),
                )
            })
        &&& (forall|i: int, j: int|
            0 <= i < j < self.pending@.len() ==> spec_key_view(
                #[trigger] self.pending@[i].key,
            ) != spec_key_view(#[trigger] self.pending@[j].key))
    }

    pub fn new(settings: BatcherSettings) -> (r: PartitionBatcher)
        requires
            settings.max_events > 0,
        ensures
            r.wf(),
            r.settings == settings,
            r.pending@ =~= Seq::<PendingBatch>::empty(),
    {
        PartitionBatcher { settings, pending: Vec::new() }
    }

    /// The position of the open batch for `key`, if one exists.
    fn find_partition(&self, key: &Option<String>) -> (r: Option<usize>)
        ensures
            match r {
                Some(i) => i < self.pending@.len() && spec_key_view(self.pending@[i as int].key)
                    == spec_key_view(*key),
                None => forall|k: int|
                    0 <= k < self.pending@.len() ==> spec_key_view(#[trigger] self.pending@[k].key)
                        != spec_key_view(*key),
            },
    {
        let n = self.pending.len();
        let mut idx: usize = 0;
        while idx < n
            invariant
                n == self.pending@.len(),
                idx <= n,
                forall|k: int|
                    0 <= k < idx ==> spec_key_view(#[trigger] self.pending@[k].key)
                        != spec_key_view(*key),
            decreases n - idx,
        {
            if keys_match(&self.pending[idx].key, key) {
                return Some(idx);
            }
            idx += 1;
        }
        None
    }

    /// Adds one event to its partition's open batch. Exactly when that batch
    /// reaches the item-count limit it is emitted and the partition starts
    /// over; an emitted batch is never over the limit, holds only this
    /// event's key, and preserves arrival order, the new item last. A new
    /// partition's window closes `timeout_millis` after `now_millis`.
    pub fn push(&mut self, item: HecProcessedEvent, now_millis: i64) -> (r: Option<
        Vec<HecProcessedEvent>,
    >)
        requires
            old(self).wf(),
        ensures
            final(self).wf(),
            final(self).settings == old(self).settings,
            r matches Some(batch) ==> batch@.len() == old(self).settings.max_events && batch@.len()
                > 0 && batch_uniform(batch@, spec_item_key(item)) && batch@.last() == item,
            match r {
                Some(batch) => (exists|i: int|
                    {
                        &&& 0 <= i < old(self).pending@.len()
                        &&& spec_key_view(#[trigger] old(self).pending@[i].key) == spec_item_key(
                            item,
                        )
                        &&& batch@ == old(self).pending@[i].items@.push(item)
                        &&& final(self).pending@ == old(self).pending@.remove(i)
                    }) || ((forall|i: int|
                    0 <= i < old(self).pending@.len() ==> spec_key_view(
                        #[trigger] old(self).pending@[i].key,
                    ) != spec_item_key(item)) && batch@ =~= seq![item] && final(self).pending@
                    == old(self).pending@),
                None => (exists|i: int|
                    {
                        &&& 0 <= i < old(self).pending@.len()
                        &&& spec_key_view(#[trigger] old(self).pending@[i].key) == spec_item_key(
                            item,
                        )
                        &&& final(self).pending@.len() == old(self).pending@.len()
                        &&& (forall|j: int|
                            0 <= j < old(self).pending@.len() && j != i
                                ==> final(self).pending@[j] == old(self).pending@[j])
                        &&& final(self).pending@[i].key == old(self).pending@[i].key
                        &&& final(self).pending@[i].deadline == old(self).pending@[i].deadline
                        &&& final(self).pending@[i].items@ == old(self).pending@[i].items@.push(
                            item,
                        )
                    }) || ((forall|i: int|
                    0 <= i < old(self).pending@.len() ==> spec_key_view(
                        #[trigger] old(self).pending@[i].key,
                    ) != spec_item_key(item)) && final(self).pending@.len() == old(self).pending@.len()
                    + 1 && final(self).pending@.drop_last() == old(self).pending@ && {
                    let b = final(self).pending@.last();
                    &&& spec_key_view(b.key) == spec_item_key(item)
                    &&& b.items@ =~= seq![item]
                    &&& b.deadline == spec_deadline(now_millis, old(self).settings.timeout_millis)
                }),
            },
    {
        let slot = self.find_partition(&item.event.metadata.splunk_hec_token);
        if let Some(idx) = slot {
            let mut open = self.pending.remove(idx);
            open.items.push(item);
            if open.items.len() >= self.settings.max_events {
                proof {
                    assert(0 <= idx < old(self).pending@.len());
                    assert(open.items@ == old(self).pending@[idx as int].items@.push(item));
                    assert(open.items@.last() == item);
                    assert(batch_uniform(open.items@, spec_item_key(item)));
                    assert forall|i: int, j: int|
                        0 <= i < j < self.pending@.len() implies spec_key_view(
                        #[trigger] self.pending@[i].key,
                    ) != spec_key_view(#[trigger] self.pending@[j].key) by {
                        if j < idx {
                            assert(self.pending@[i] == old(self).pending@[i]);
                            assert(self.pending@[j] == old(self).pending@[j]);
                        } else if i < idx {
                            assert(self.pending@[i] == old(self).pending@[i]);
                            assert(self.pending@[j] == old(self).pending@[j + 1]);
                        } else {
                            assert(self.pending@[i] == old(self).pending@[i + 1]);
                            assert(self.pending@[j] == old(self).pending@[j + 1]);
                        }
                    }
                }
                Some(open.items)
            } else {
                self.pending.insert(idx, open);
                proof {
                    assert(self.pending@.len() == old(self).pending@.len());
                    assert(forall|j: int|
                        0 <= j < old(self).pending@.len() && j != idx ==> self.pending@[j] == old(
                            self,
                        ).pending@[j]);
                    assert(self.pending@[idx as int].items@ == old(
                        self,
                    ).pending@[idx as int].items@.push(item));
                }
                None
            }
        } else {
            let key = clone_key(&item.event.metadata.splunk_hec_token);
            let deadline = match now_millis.checked_add(self.settings.timeout_millis) {
                Some(d) => d,
                None => i64::MAX,
            };
            let ghost item_snapshot = item;
            let mut items: Vec<HecProcessedEvent> = Vec::new();
            items.push(item);
            proof {
                assert(items@ =~= seq![item_snapshot]);
            }
            if self.settings.max_events == 1 {
                Some(items)
            } else {
                self.pending.push(PendingBatch { key, items, deadline });
                proof {
                    assert(self.pending@.drop_last() =~= old(self).pending@);
                    assert(self.pending@.last().items@ =~= seq![item_snapshot]);
                }
                None
            }
        }
    }

    /// Emits every open batch whose time window has closed at `now_millis`,
    /// even when under the item-count limit; the still-open batches stay, in
    /// order.
    pub fn expire(&mut self, now_millis: i64) -> (r: Vec<Vec<HecProcessedEvent>>)
        requires
            old(self).wf(),
        ensures
            final(self).wf(),
            final(self).settings == old(self).settings,
            final(self).pending@ == spec_live(old(self).pending@, now_millis),
            r@.len() == spec_expired(old(self).pending@, now_millis).len(),
            forall|i: int|
                0 <= i < r@.len() ==> #[trigger] r@[i]@ == spec_expired(
                    old(self).pending@,
                    now_millis,
                )[i].items@,
            forall|i: int|
                0 <= i < final(self).pending@.len()
                    ==> (#[trigger] final(self).pending@[i]).deadline > now_millis,
            forall|i: int|
                0 <= i < r@.len() ==> batch_uniform(
                    #[trigger] r@[i]@,
                    spec_key_view(spec_expired(old(self).pending@, now_millis)[i].key),
                ),
    {
        let ghost orig = self.pending@;
        let mut rest: Vec<PendingBatch> = Vec::new();
        core::mem::swap(&mut rest, &mut self.pending);
        let mut rev: Vec<PendingBatch> = Vec::new();
        while rest.len() > 0
            invariant
                rest@.len() + rev@.len() == orig.len(),
                rest@ == orig.take(rest@.len() as int),
                forall|i: int| 0 <= i < rev@.len() ==> #[trigger] rev@[i] == orig[orig.len() - 1 - i],
            decreases rest@.len(),
        {
            let ghost m = rest@.len() as int;
            let b = rest.pop().unwrap();
            proof {
                assert(b == orig[m - 1]);
                assert(rest@ =~= orig.take(m - 1));
            }
            rev.push(b);
        }
        let mut out: Vec<Vec<HecProcessedEvent>> = Vec::new();
        let mut live: Vec<PendingBatch> = Vec::new();
        proof {
            assert(orig.take(0) =~= Seq::<PendingBatch>::empty());
        }
        while rev.len() > 0
            invariant
                rev@.len() <= orig.len(),
                forall|i: int| 0 <= i < rev@.len() ==> #[trigger] rev@[i] == orig[orig.len() - 1 - i],
                out@.len() == spec_expired(orig.take((orig.len() - rev@.len()) as int), now_millis).len(),
                forall|i: int|
                    0 <= i < out@.len() ==> #[trigger] out@[i]@ == spec_expired(
                        orig.take((orig.len() - rev@.len()) as int),
                        now_millis,
                    )[i].items@,
                live@ == spec_live(orig.take((orig.len() - rev@.len()) as int), now_millis),
            decreases rev@.len(),
        {
            let ghost consumed = (orig.len() - rev@.len()) as int;
            let b = rev.pop().unwrap();
            proof {
                assert(b == orig[consumed]);
                assert(orig.take(consumed + 1).drop_last() =~= orig.take(consumed));
                assert(orig.take(consumed + 1).last() == orig[consumed]);
            }
            if b.deadline <= now_millis {
                out.push(b.items);
            } else {
                live.push(b);
            }
        }
        proof {
            assert(orig.take(orig.len() as int) =~= orig);
        }
        self.pending = live;
        proof {
            lemma_live_keeps_wf(orig, now_millis, self.settings.max_events);
            lemma_expired_uniform(orig, now_millis);
        }
        out
    }

    /// Emits every open batch, closed window or not: the end-of-stream flush.
    pub fn flush(&mut self) -> (r: Vec<Vec<HecProcessedEvent>>)
        requires
            old(self).wf(),
        ensures
            final(self).wf(),
            final(self).settings == old(self).settings,
            final(self).pending@ =~= Seq::<PendingBatch>::empty(),
            r@.len() == old(self).pending@.len(),
            forall|i: int| 0 <= i < r@.len() ==> #[trigger] r@[i]@ == old(self).pending@[i].items@,
            forall|i: int|
                0 <= i < r@.len() ==> batch_uniform(
                    #[trigger] r@[i]@,
                    spec_key_view(old(self).pending@[i].key),
                ),
    {
        let ghost orig = self.pending@;
        let mut rest: Vec<PendingBatch> = Vec::new();
        core::mem::swap(&mut rest, &mut self.pending);
        let mut rev: Vec<PendingBatch> = Vec::new();
        while rest.len() > 0
            invariant
                rest@.len() + rev@.len() == orig.len(),
                rest@ == orig.take(rest@.len() as int),
                forall|i: int| 0 <= i < rev@.len() ==> #[trigger] rev@[i] == orig[orig.len() - 1 - i],
            decreases rest@.len(),
        {
            let ghost m = rest@.len() as int;
            let b = rest.pop().unwrap();
            proof {
                assert(b == orig[m - 1]);
                assert(rest@ =~= orig.take(m - 1));
            }
            rev.push(b);
        }
        let mut out: Vec<Vec<HecProcessedEvent>> = Vec::new();
        while rev.len() > 0
            invariant
                rev@.len() + out@.len() == orig.len(),
                forall|i: int| 0 <= i < rev@.len() ==> #[trigger] rev@[i] == orig[orig.len() - 1 - i],
                forall|i: int| 0 <= i < out@.len() ==> #[trigger] out@[i]@ == orig[i].items@,
            decreases rev@.len(),
        {
            let ghost consumed = (orig.len() - rev@.len()) as int;
            let b = rev.pop().unwrap();
            proof {
                assert(b == orig[consumed]);
            }
            out.push(b.items);
        }
        out
    }
}

/// The still-open batches of a well-formed pending set are themselves
/// well-formed: non-empty, under the limit, uniform, and key-distinct.
proof fn lemma_live_keeps_wf(pending: Seq<PendingBatch>, now: i64, max_events: usize)
    requires
        forall|i: int|
            0 <= i < pending.len() ==> {
                let b = #[trigger] pending[i];
                0 < b.items@.len() < max_events && batch_uniform(b.items@, spec_key_view(b.key))
            },
        forall|i: int, j: int|
            0 <= i < j < pending.len() ==> spec_key_view(#[trigger] pending[i].key)
                != spec_key_view(#[trigger] pending[j].key),
    ensures
        forall|i: int|
            0 <= i < spec_live(pending, now).len() ==> {
                let b = #[trigger] spec_live(pending, now)[i];
                0 < b.items@.len() < max_events && batch_uniform(b.items@, spec_key_view(b.key))
            },
        forall|i: int, j: int|
            0 <= i < j < spec_live(pending, now).len() ==> spec_key_view(
                #[trigger] spec_live(pending, now)[i].key,
            ) != spec_key_view(#[trigger] spec_live(pending, now)[j].key),
        forall|i: int|
            0 <= i < spec_live(pending, now).len() ==> (#[trigger] spec_live(
                pending,
                now,
            )[i]).deadline > now,
    decreases pending.len(),
{
    if pending.len() > 0 {
        lemma_live_keeps_wf(pending.drop_last(), now, max_events);
        lemma_live_members(pending.drop_last(), now);
        assert(pending.last() == pending[pending.len() - 1]);
    }
}

/// Every emitted, window-closed batch is uniform in its own key, as every
/// open batch of a well-formed pending set is.
proof fn lemma_expired_uniform(pending: Seq<PendingBatch>, now: i64)
    requires
        forall|i: int|
            0 <= i < pending.len() ==> batch_uniform(
                (#[trigger] pending[i]).items@,
                spec_key_view(pending[i].key),
            ),
    ensures
        forall|i: int|
            0 <= i < spec_expired(pending, now).len() ==> batch_uniform(
                (#[trigger] spec_expired(pending, now)[i]).items@,
                spec_key_view(spec_expired(pending, now)[i].key),
            ),
    decreases pending.len(),
{
    if pending.len() > 0 {
        lemma_expired_uniform(pending.drop_last(), now);
        assert(pending.last() == pending[pending.len() - 1]);
    }
}

/// Every still-open batch is one of the pending batches.
proof fn lemma_live_members(pending: Seq<PendingBatch>, now: i64)
    ensures
        forall|i: int|
            0 <= i < spec_live(pending, now).len() ==> exists|j: int|
                0 <= j < pending.len() && #[trigger] spec_live(pending, now)[i] == pending[j],
    decreases pending.len(),
{
    if pending.len() > 0 {
        lemma_live_members(pending.drop_last(), now);
        assert forall|i: int| 0 <= i < spec_live(pending, now).len() implies exists|j: int|
            0 <= j < pending.len() && #[trigger] spec_live(pending, now)[i] == pending[j] by {
            let prev = spec_live(pending.drop_last(), now);
            if i < prev.len() {
                let j = choose|j: int|
                    0 <= j < pending.drop_last().len() && prev[i] == pending.drop_last()[j];
                assert(pending.drop_last()[j] == pending[j]);
                assert(spec_live(pending, now)[i] == pending[j]);
            } else {
                assert(spec_live(pending, now)[i] == pending[pending.len() - 1]);
            }
        }
    }
}

/// Law: events with differing partition keys never share a batch — every
/// batch the batcher emits is uniform in one key, so any two of its items
/// carry that same key.
pub proof fn lemma_partition_isolation(
    batch: Seq<HecProcessedEvent>,
    key: Option<Seq<char>>,
    i: int,
    j: int,
)
    requires
        batch_uniform(batch, key),
        0 <= i < batch.len(),
        0 <= j < batch.len(),
    ensures
        spec_item_key(batch[i]) == spec_item_key(batch[j]),
{
}

} // verus!
