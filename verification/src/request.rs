//! Request building and dispatch accounting: each emitted batch is handed to
//! an outside request builder under a bounded concurrency limit; a failed
//! build is logged and its batch dropped, and never touches any other batch.
use vstd::prelude::*;

use crate::batch::clone_key;
use crate::egress::HecProcessedEvent;

verus! {

/// At most this many request builds are in flight at once.
pub const REQUEST_BUILD_CONCURRENCY_LIMIT: usize = 64;

/// A wire request built from one batch: the encoded body plus what the
/// delivery driver needs to account for the batch — its event count and its
/// partition key.
#[derive(Clone, Debug, PartialEq)]
pub struct HecRequest {
    pub body: Vec<u8>,
    pub event_count: usize,
    pub partition_key: Option<String>,
}

/// How many build outcomes succeeded.
pub open spec fn spec_ok_count(bodies: Seq<Option<Vec<u8>>>) -> nat
    decreases bodies.len(),
{
    if bodies.len() == 0 {
        0
    } else {
        spec_ok_count(bodies.drop_last()) + (if bodies.last() is Some {
            1nat
        } else {
            0nat
        })
    }
}

/// True when `req` is the request built for `batch` with encoded `body`.
pub open spec fn request_for_batch(req: HecRequest, batch: Seq<HecProcessedEvent>, body: Vec<u8>) -> bool {
    &&& req.body == body
    &&& req.event_count == batch.len()
    &&& batch.len() > 0 ==> req.partition_key == batch[0].event.metadata.splunk_hec_token
}

/// True when every successful build outcome has a request dispatched for it:
/// a failed build never costs any other batch its request.
pub open spec fn all_built_dispatched(
    requests: Seq<HecRequest>,
    batches: Seq<Vec<HecProcessedEvent>>,
    bodies: Seq<Option<Vec<u8>>>,
) -> bool {
    forall|i: int|
        0 <= i < bodies.len() && (#[trigger] bodies[i]) is Some ==> exists|j: int|
            0 <= j < requests.len() && request_for_batch(
                #[trigger] requests[j],
                batches[i]@,
                bodies[i]->0,
            )
}

/// How many builds may start now without exceeding the concurrency limit.
pub fn builds_to_start(queued: usize, in_flight: usize) -> (r: usize)
    requires
        in_flight <= REQUEST_BUILD_CONCURRENCY_LIMIT,
    ensures
        r == if queued < REQUEST_BUILD_CONCURRENCY_LIMIT - in_flight {
            queued as int
        } else {
            REQUEST_BUILD_CONCURRENCY_LIMIT - in_flight
        },
        in_flight + r <= REQUEST_BUILD_CONCURRENCY_LIMIT,
{
    let available = REQUEST_BUILD_CONCURRENCY_LIMIT - in_flight;
    if queued < available {
        queued
    } else {
        available
    }
}

/// Pairs each batch with its build outcome, keeping a request for every
/// successful build and dropping each failed one individually: one failed
/// build never costs any other batch its request, and every batch the
/// builder encoded is dispatched. The second result counts the failures,
/// one diagnostic each.
#[verifier::rlimit(100)]
pub fn finish_builds(batches: Vec<Vec<HecProcessedEvent>>, bodies: Vec<Option<Vec<u8>>>) -> (r: (
    Vec<HecRequest>,
    usize,
))
    requires
        batches@.len() == bodies@.len(),
    ensures
        r.0@.len() == spec_ok_count(bodies@),
        r.0@.len() + r.1 == bodies@.len(),
        all_built_dispatched(r.0@, batches@, bodies@),
{
    let ghost orig_batches = batches@;
    let ghost orig_bodies = bodies@;
    let mut batches = batches;
    let mut bodies = bodies;
    let mut rev_batches: Vec<Vec<HecProcessedEvent>> = Vec::new();
    let mut rev_bodies: Vec<Option<Vec<u8>>> = Vec::new();
    while batches.len() > 0
        invariant
            batches@.len() == bodies@.len(),
            batches@.len() + rev_batches@.len() == orig_batches.len(),
            rev_batches@.len() == rev_bodies@.len(),
            batches@ == orig_batches.take(batches@.len() as int),
            bodies@ == orig_bodies.take(bodies@.len() as int),
            orig_batches.len() == orig_bodies.len(),
            forall|i: int|
                0 <= i < rev_batches@.len() ==> #[trigger] rev_batches@[i] == orig_batches[orig_batches.len()
                    - 1 - i],
            forall|i: int|
                0 <= i < rev_bodies@.len() ==> #[trigger] rev_bodies@[i] == orig_bodies[orig_bodies.len()
                    - 1 - i],
        decreases batches@.len(),
    {
        let ghost m = batches@.len() as int;
        let batch = batches.pop().unwrap();
        let body = bodies.pop().unwrap();
        proof {
            assert(batch == orig_batches[m - 1]);
            assert(body == orig_bodies[m - 1]);
            assert(batches@ =~= orig_batches.take(m - 1));
            assert(bodies@ =~= orig_bodies.take(m - 1));
        }
        rev_batches.push(batch);
        rev_bodies.push(body);
    }
    let mut requests: Vec<HecRequest> = Vec::new();
    let mut failures: usize = 0;
    let total = rev_bodies.len();
    proof {
        assert(orig_bodies.len() == total);
        assert(orig_bodies.take(0) =~= Seq::<Option<Vec<u8>>>::empty());
    }
    while rev_batches.len() > 0
        invariant
            orig_batches.len() == orig_bodies.len(),
            orig_bodies.len() <= usize::MAX,
            rev_batches@.len() == rev_bodies@.len(),
            rev_batches@.len() <= orig_batches.len(),
            forall|i: int|
                0 <= i < rev_batches@.len() ==> #[trigger] rev_batches@[i] == orig_batches[orig_batches.len()
                    - 1 - i],
            forall|i: int|
                0 <= i < rev_bodies@.len() ==> #[trigger] rev_bodies@[i] == orig_bodies[orig_bodies.len()
                    - 1 - i],
            requests@.len() == spec_ok_count(
                orig_bodies.take((orig_bodies.len() - rev_bodies@.len()) as int),
            ),
            requests@.len() + failures == orig_bodies.len() - rev_bodies@.len(),
            forall|i: int|
                0 <= i < orig_bodies.len() - rev_bodies@.len() && (#[trigger] orig_bodies[i])
                    is Some ==> exists|j: int|
                    0 <= j < requests@.len() && request_for_batch(
                        #[trigger] requests@[j],
                        orig_batches[i]@,
                        orig_bodies[i]->0,
                    ),
        decreases rev_batches@.len(),
    {
        let ghost consumed = (orig_bodies.len() - rev_bodies@.len()) as int;
        let batch = rev_batches.pop().unwrap();
        let body = rev_bodies.pop().unwrap();
        proof {
            assert(batch == orig_batches[consumed]);
            assert(body == orig_bodies[consumed]);
            assert(orig_bodies.take(consumed + 1).drop_last() =~= orig_bodies.take(consumed));
            assert(orig_bodies.take(consumed + 1).last() == orig_bodies[consumed]);
        }
        match body {
            Some(encoded) => {
                let partition_key = if batch.len() > 0 {
                    clone_key(&batch[0].event.metadata.splunk_hec_token)
                } else {
                    None
                };
                let request = HecRequest {
                    body: encoded,
                    event_count: batch.len(),
                    partition_key,
                };
                proof {
                    assert(request_for_batch(
                        request,
                        orig_batches[consumed]@,
                        orig_bodies[consumed]->0,
                    ));
                }
                let ghost pre = requests@;
                requests.push(request);
                proof {
                    assert(requests@[requests@.len() - 1] == request);
                    assert forall|i: int|
                        0 <= i <= consumed && (#[trigger] orig_bodies[i]) is Some implies exists|
                        j: int,
                    |
                        0 <= j < requests@.len() && request_for_batch(
                            #[trigger] requests@[j],
                            orig_batches[i]@,
                            orig_bodies[i]->0,
                        ) by {
                        if i == consumed {
                            assert(request_for_batch(
                                requests@[requests@.len() - 1],
                                orig_batches[i]@,
                                orig_bodies[i]->0,
                            ));
                        } else {
                            let j = choose|j: int|
                                0 <= j < pre.len() && request_for_batch(
                                    #[trigger] pre[j],
                                    orig_batches[i]@,
                                    orig_bodies[i]->0,
                                );
                            assert(requests@[j] == pre[j]);
                            assert(request_for_batch(
                                requests@[j],
                                orig_batches[i]@,
                                orig_bodies[i]->0,
                            ));
                        }
                    }
                }
            },
            None => {
                failures += 1;
            },
        }
    }
    proof {
        assert(orig_bodies.take(orig_bodies.len() as int) =~= orig_bodies);
        assert(rev_bodies@.len() == 0);
        assert(all_built_dispatched(requests@, orig_batches, orig_bodies));
    }
    (requests, failures)
}

} // verus!
