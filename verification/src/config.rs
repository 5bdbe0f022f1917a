//! The limits and intervals that the mesh runs with.

use vstd::prelude::*;

use crate::time::Duration;

verus! {

/// Most messages that a topic caches.
pub const MAX_CACHE_SIZE: usize = 2_048;

/// Age at which a cached message is evicted.
pub const MAX_CACHE_AGE_SECS: u64 = 60;

/// Most estimated wire bytes that a topic caches.
pub const MAX_CACHE_BYTES_PER_TOPIC: usize = 16 * 1024 * 1024;

/// Estimated bytes of a message's header and framing.
pub const MESSAGE_HEADER_OVERHEAD_BYTES: usize = 256;

/// Estimated bytes of a message's signature and public key.
pub const MESSAGE_CRYPTO_OVERHEAD_BYTES: usize = 5_500;

/// Most payload hashes that a topic remembers against replays.
pub const REPLAY_CACHE_MAX_ENTRIES: usize = 10_000;

/// How long a payload hash counts as a replay.
pub const REPLAY_CACHE_TTL_SECS: u64 = 300;

/// How long a topic without subscribers may be quiet before it is dropped.
pub const TOPIC_IDLE_TTL_SECS: u64 = 600;

/// Most message identifiers in one announcement.
pub const MAX_IHAVE_BATCH_SIZE: usize = 1024;

/// Interval between announcements.
pub const IHAVE_FLUSH_INTERVAL_MS: u64 = 100;

/// Interval between reconciliations.
pub const ANTI_ENTROPY_INTERVAL_SECS: u64 = 30;

/// Eager peers below which lazy peers are promoted.
pub const MIN_EAGER_DEGREE: usize = 6;

/// Eager peers above which some are demoted.
pub const MAX_EAGER_DEGREE: usize = 12;

/// Send budget for a peer of which no round trip has been measured.
pub const PER_PEER_REPUBLISH_TIMEOUT_MS: u64 = 4_000;

/// Window in which timeouts are counted together.
pub const PEER_TIMEOUT_WINDOW_SECS: u64 = 30;

/// Timeouts within the window that cool a peer.
pub const PEER_TIMEOUT_THRESHOLD: usize = 8;

/// First suppression of a peer that is cooled without an adaptive configuration.
pub const PEER_SUPPRESSION_COOLDOWN_SECS: u64 = 30;

/// Longest suppression of a peer that is cooled without an adaptive configuration.
pub const PEER_SUPPRESSION_BACKOFF_MAX_SECS: u64 = 300;

/// Least time between two sends to a peer whose suppression still runs.
pub const PEER_COOLDOWN_BYPASS_MIN_INTERVAL_SECS: u64 = 5;

/// Interval between refreshes of what is known of the peers' health.
pub const PEER_HEALTH_REFRESH_INTERVAL_SECS: u64 = 1;

/// Interval between refreshes of which peers are connected.
pub const CONNECTED_PEERS_REFRESH_INTERVAL_SECS: u64 = 1;

/// How long a peer's score is kept after its last evidence.
pub const PEER_SCORE_RETENTION_SECS: u64 = 2_400;

/// Shortest interval between cleanups of expired suppressions.
pub const SUPPRESSION_CLEANUP_MIN_INTERVAL_MS: u64 = 10_000;

/// Usual interval between cleanups of expired suppressions.
pub const SUPPRESSION_CLEANUP_NORMAL_INTERVAL_MS: u64 = 60_000;

/// Longest interval between cleanups of expired suppressions.
pub const SUPPRESSION_CLEANUP_MAX_INTERVAL_MS: u64 = 120_000;

/// Least time between two score-driven replacements of an eager peer.
pub const OPPORTUNISTIC_GRAFT_INTERVAL_SECS: u64 = 60;

/// Concurrent critical data sends to one peer.
pub const OUTBOUND_CRITICAL_DATA_PERMITS_PER_PEER: usize = 1;

/// Concurrent control sends to one peer.
pub const OUTBOUND_CONTROL_PERMITS_PER_PEER: usize = 2;

/// How long an unused send budget is kept.
pub const OUTBOUND_BUDGET_REAP_AFTER_SECS: u64 = 600;

/// Critical sends that may wait for one peer, the one in flight among them.
pub const OUTBOUND_CRITICAL_QUEUE_PER_PEER: usize = 64;

/// Shards of the topic map.
pub const TOPIC_SHARD_COUNT: usize = 32;

/// A span of whole seconds.
pub open spec fn secs(n: u64) -> Duration {
    Duration { nanos: (n * crate::time::NANOS_PER_SEC) as u128 }
}

/// A span of whole milliseconds.
pub open spec fn millis(n: u64) -> Duration {
    Duration { nanos: (n * crate::time::NANOS_PER_MILLI) as u128 }
}

} // verus!
