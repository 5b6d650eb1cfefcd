//! Consumer-group lag for a Kafka cluster, computed by tailing the internal
//! `__consumer_offsets` topic.
//!
//! The library holds the two parts worth proving: the versioned binary codec
//! for the topic's key/value records ([`codec`]), and the per-message
//! decisions of the pipeline that resolves each committed offset against its
//! partition's high-watermark ([`lag`]). The consumer loop itself — the
//! subscription, the watermark lookups, the output — is glue around these
//! functions.

pub mod codec;
pub mod datefmt;
pub mod lag;
pub mod records;
