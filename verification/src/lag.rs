//! Per-message decisions of the lag pipeline.
//!
//! The pipeline consumes raw messages, decodes each through the codec, and
//! resolves every offset commit against the partition's current
//! high-watermark. The decisions live here as pure functions; the consumer
//! loop around them performs the subscription and the watermark lookups.

use crate::codec::parse_message;
use crate::codec::spec_decode;
use crate::codec::SpecRecord;
use crate::records::LagError;
use crate::records::OffsetRecord;
use vstd::prelude::*;

verus! {

/// The lag of a consumer group behind a partition: the high-watermark minus
/// the committed offset.
pub open spec fn spec_lag(high_watermark: int, offset: int) -> int {
    high_watermark - offset
}

/// What the pipeline does next for one consumed message.
#[derive(Debug, PartialEq, Eq)]
pub enum PlannedStep {
    /// The message holds an offset commit: fetch the high-watermark for
    /// `(topic, partition)`, then finish with [`resolve_lag`].
    ResolveLag { group: String, topic: String, partition: i32, offset: i64 },
    /// No lookup is needed: emit the decoded record as it is.
    EmitRecord(OffsetRecord),
    /// No lookup is needed: emit the failure for this one message.
    EmitError(LagError),
}

/// Decide, for one raw message, whether its record needs a high-watermark
/// lookup. Only an offset commit ever does; a tombstone or a group-metadata
/// record is emitted as it is, and a malformed record is emitted as its
/// error, so one bad record never stops consumption of the rest.
pub fn plan_message(key: &[u8], payload: &[u8]) -> (r: PlannedStep)
    ensures
        match spec_decode(key@, payload@) {
            SpecRecord::Commit { group, topic, partition, offset } => {
                (r matches PlannedStep::ResolveLag { group: g, topic: t, partition: p, offset: o }
                    && g@ == group && t@ == topic && p as int == partition && o as int == offset)
            },
            SpecRecord::Tombstone => r == PlannedStep::EmitRecord(OffsetRecord::Tombstone),
            SpecRecord::Metadata => r == PlannedStep::EmitRecord(OffsetRecord::GroupMetadata),
            SpecRecord::Malformed => r == PlannedStep::EmitError(LagError::MalformedRecord),
        },
{
    match parse_message(key, payload) {
        Ok(OffsetRecord::OffsetCommit { group, topic, partition, offset }) => {
            PlannedStep::ResolveLag { group, topic, partition, offset }
        },
        Ok(rec) => PlannedStep::EmitRecord(rec),
        Err(e) => PlannedStep::EmitError(e),
    }
}

/// Resolve a committed offset against the high-watermark fetched for its
/// topic and partition. The lag is the high-watermark minus the offset; a
/// negative lag (a watermark read that raced behind the commit) is a valid,
/// reportable value, not an error. `None` exactly when the difference does
/// not fit an `i64`.
pub fn resolve_lag(
    group: String,
    topic: String,
    partition: i32,
    offset: i64,
    high_watermark: i64,
) -> (r: Option<OffsetRecord>)
    ensures
        r is Some <==> i64::MIN <= spec_lag(high_watermark as int, offset as int) <= i64::MAX,
        (r matches Some(rec) ==> (rec matches OffsetRecord::GroupOffsetLag {
            group: g,
            topic: t,
            partition: p,
            offset: o,
            lag,
        } && g == group && t == topic && p == partition && o == offset && lag as int == spec_lag(
            high_watermark as int,
            offset as int,
        ))),
{
    match high_watermark.checked_sub(offset) {
        Some(lag) => Some(OffsetRecord::GroupOffsetLag { group, topic, partition, offset, lag }),
        None => None,
    }
}

/// Law: the lag is zero exactly when the group has consumed everything,
/// negative exactly when the watermark reads behind the committed offset,
/// and positive exactly when messages remain to be consumed.
pub proof fn lemma_lag_sign(high_watermark: int, offset: int)
    ensures
        spec_lag(high_watermark, offset) == 0 <==> high_watermark == offset,
        spec_lag(high_watermark, offset) < 0 <==> high_watermark < offset,
        spec_lag(high_watermark, offset) > 0 <==> high_watermark > offset,
{
}

} // verus!
