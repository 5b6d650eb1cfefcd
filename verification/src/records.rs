//! The record and error types that the codec and the lag pipeline produce.

use vstd::prelude::*;

verus! {

/// One decoded (or resolved) record from the `__consumer_offsets` topic.
#[derive(Debug, PartialEq, Eq)]
pub enum OffsetRecord {
    /// A committed offset for a consumer group, read from an offset-commit record.
    OffsetCommit { group: String, topic: String, partition: i32, offset: i64 },
    /// An offset-commit key whose value is empty: the committed offset was deleted or expired.
    Tombstone,
    /// A record whose key schema version is not an offset-commit version
    /// (group-metadata records); carried through, never resolved to a lag.
    GroupMetadata,
    /// A committed offset resolved against the partition's high-watermark:
    /// `lag` is the high-watermark minus the committed offset.
    GroupOffsetLag { group: String, topic: String, partition: i32, offset: i64, lag: i64 },
}

/// One member assignment entry from a group-metadata value payload.
#[derive(Debug, PartialEq, Eq)]
pub struct MemberAssignment {
    pub topic: String,
    pub partitions: Vec<i32>,
}

/// A sequence of `i32` partition numbers, as mathematical integers.
pub open spec fn partitions_view(v: Seq<i32>) -> Seq<int> {
    v.map(|_i: int, p: i32| p as int)
}

/// What a member assignment holds: the topic's text and its partitions,
/// in wire order.
impl View for MemberAssignment {
    type V = (Seq<char>, Seq<int>);

    open spec fn view(&self) -> (Seq<char>, Seq<int>) {
        (self.topic@, partitions_view(self.partitions@))
    }
}

/// The contents of a decoded assignment list, entry by entry.
pub open spec fn assignments_view(v: Seq<MemberAssignment>) -> Seq<(Seq<char>, Seq<int>)> {
    v.map(|_i: int, a: MemberAssignment| a@)
}

/// The failures a record can meet on its way to a lag value. A per-record
/// failure never stops consumption of the records after it.
#[derive(Debug, PartialEq, Eq, Structural)]
pub enum LagError {
    /// Key or payload shorter than the schema requires, a negative length
    /// prefix, or string bytes that are not valid UTF-8.
    MalformedRecord,
    /// A key schema version outside the known offset-commit range, where
    /// strict decoding of such records is asked for.
    UnsupportedSchemaVersion,
    /// The high-watermark fetch failed or timed out.
    LookupFailure,
    /// No consumer could be created or subscribed at all.
    ConnectionFailure,
}

} // verus!
