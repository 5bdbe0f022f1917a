//! Plumtree publish/subscribe: the decisions of a gossip mesh as verified code.
//!
//! A node keeps a [`topic::TopicState`] for every topic. Full messages travel along the eager peers,
//! announcements go to the lazy ones, and whatever is missed is asked for or reconciled later. A
//! peer that keeps timing out is cooled, and a peer that serves badly is replaced. Everything here
//! is a function from state and event to state and action; sockets, clocks, locks and signatures
//! are the caller's.

pub mod budget;
pub mod cache;
pub mod claims;
pub mod collections;
pub mod config;
pub mod connectivity;
pub mod cooling;
pub mod diagnostics;
pub mod digest;
pub mod hashing;
pub mod ids;
pub mod inbound;
pub mod membership;
pub mod mesh;
pub mod message;
pub mod order;
pub mod outbound;
pub mod peer_scoring;
pub mod recency;
pub mod recovery;
pub mod replay;
pub mod reported;
pub mod rescue;
pub mod results;
pub mod routing;
pub mod score;
pub mod soundness;
pub mod stats;
pub mod time;
pub mod timing;
pub mod topic;
pub mod topics;
pub mod upkeep;
pub mod wire;

pub use cache::{CacheStatsSnapshot, PubSubCacheConfig};
pub use diagnostics::{AdmissionStateSnapshot, TopicCacheStatsSnapshot};
pub use message::GossipMessage;
pub use stats::{
    PubSubMessageKindStats, PubSubMessageKindStatsSnapshot, PubSubStageStats, PubSubStageStatsSnapshot,
    StageTimingStats, StageTimingStatsSnapshot, SuppressedPeerSnapshot,
};
pub use timing::{AdaptiveCoolingConfig, PerPeerRttTracker};
pub use wire::peek_message_kind;
