//! Transport core of a telemetry pipeline: decoding untrusted datagrams into
//! enriched events on the ingress side, and partitioned, bounded batching with
//! per-request delivery accounting on the egress side.
pub mod batch;
pub mod buffer;
pub mod clock;
pub mod egress;
pub mod event;
pub mod ingress;
pub mod request;
pub mod template;

use vstd::prelude::*;

verus! {

} // verus!
