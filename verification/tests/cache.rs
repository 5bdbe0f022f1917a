use saorsa_gossip_pubsub::cache::{estimate_message_bytes, BoundedMessageCache, CachedMessage, PubSubCacheConfig};
use saorsa_gossip_pubsub::config::{MAX_CACHE_AGE_SECS, MAX_CACHE_SIZE, REPLAY_CACHE_MAX_ENTRIES};
use saorsa_gossip_pubsub::ids::{MessageId, TopicId};
use saorsa_gossip_pubsub::message::{MessageHeader, MessageKind};
use saorsa_gossip_pubsub::time::{Duration, Instant};
use saorsa_gossip_pubsub::topic::TopicState;

fn start() -> Instant {
    Instant { nanos: 100_000_000_000_000 }
}

fn before(now: Instant, secs: u64) -> Instant {
    now.checked_minus(Duration::from_secs(secs)).expect("the clock is far enough")
}

fn header(topic: TopicId, msg_id: MessageId) -> MessageHeader {
    MessageHeader { version: 1, topic, msg_id, kind: MessageKind::Eager, hop: 0, ttl: 10 }
}

fn test_msg_id(n: u64) -> MessageId {
    let mut id = [0u8; 32];
    id[..8].copy_from_slice(&n.to_le_bytes());
    id
}

fn test_cached_message(topic: TopicId, msg_id: MessageId, len: usize) -> CachedMessage {
    CachedMessage { payload: vec![0xAB; len], header: header(topic, msg_id) }
}

fn new_topic() -> TopicState {
    TopicState::with_cache_config(PubSubCacheConfig::default(), start())
}

#[test]
fn bounded_cache_evicts_by_age() {
    let topic = TopicId::new([1u8; 32]);
    let now = start();
    let old_id = test_msg_id(1);
    let fresh_id = test_msg_id(2);
    let mut cache = BoundedMessageCache::new(10, usize::MAX, Duration::from_secs(MAX_CACHE_AGE_SECS));

    assert!(cache.insert_at(
        old_id,
        test_cached_message(topic, old_id, 128),
        before(now, MAX_CACHE_AGE_SECS + 1),
    ));
    assert!(cache.insert_at(fresh_id, test_cached_message(topic, fresh_id, 128), now));

    let stats = cache.stats_at(now);
    assert_eq!(stats.msg_count, 1);
    assert_eq!(stats.evicted_by_age, 1);
    assert!(!cache.contains(&old_id));
    assert!(cache.contains(&fresh_id));
}

#[test]
fn bounded_cache_evicts_by_bytes_under_pressure() {
    let topic = TopicId::new([2u8; 32]);
    let now = start();
    let sample = test_cached_message(topic, test_msg_id(0), 1024);
    let entry_bytes = estimate_message_bytes(&sample);
    let mut cache = BoundedMessageCache::new(10, entry_bytes * 2, Duration::from_secs(300));

    for id in 1..=3 {
        let msg_id = test_msg_id(id);
        assert!(cache.insert_at(msg_id, test_cached_message(topic, msg_id, 1024), now));
    }

    let stats = cache.stats_at(now);
    assert_eq!(stats.msg_count, 2);
    assert!(stats.total_bytes <= entry_bytes * 2);
    assert_eq!(stats.evicted_by_bytes, 1);
    assert!(!cache.contains(&test_msg_id(1)));
}

#[test]
fn bounded_cache_evicts_by_count_hard_cap() {
    let topic = TopicId::new([3u8; 32]);
    let now = start();
    let mut cache = BoundedMessageCache::new(2, usize::MAX, Duration::from_secs(300));

    for id in 1..=3 {
        let msg_id = test_msg_id(id);
        assert!(cache.insert_at(msg_id, test_cached_message(topic, msg_id, 64), now));
    }

    let stats = cache.stats_at(now);
    assert_eq!(stats.msg_count, 2);
    assert_eq!(stats.evicted_by_count, 1);
    assert!(!cache.contains(&test_msg_id(1)));
}

#[test]
fn bounded_cache_age_takes_precedence_over_bytes() {
    let topic = TopicId::new([4u8; 32]);
    let now = start();
    let sample = test_cached_message(topic, test_msg_id(0), 512);
    let entry_bytes = estimate_message_bytes(&sample);
    let mut cache = BoundedMessageCache::new(10, entry_bytes * 2, Duration::from_secs(60));
    let old_id = test_msg_id(1);
    let fresh_id = test_msg_id(2);
    let incoming_id = test_msg_id(3);

    assert!(cache.insert_at(old_id, test_cached_message(topic, old_id, 512), before(now, 61)));
    assert!(cache.insert_at(fresh_id, test_cached_message(topic, fresh_id, 512), now));
    assert!(cache.insert_at(incoming_id, test_cached_message(topic, incoming_id, 512), now));

    let stats = cache.stats_at(now);
    assert_eq!(stats.msg_count, 2);
    assert_eq!(stats.evicted_by_age, 1);
    assert_eq!(stats.evicted_by_bytes, 0);
    assert!(!cache.contains(&old_id));
}

#[test]
fn bounded_cache_eviction_counters_track_correctly() {
    let topic = TopicId::new([5u8; 32]);
    let now = start();
    let sample = test_cached_message(topic, test_msg_id(0), 256);
    let entry_bytes = estimate_message_bytes(&sample);

    let mut age_cache = BoundedMessageCache::new(4, usize::MAX, Duration::from_secs(10));
    let old_id = test_msg_id(1);
    let new_id = test_msg_id(2);
    assert!(age_cache.insert_at(old_id, test_cached_message(topic, old_id, 256), before(now, 11)));
    assert!(age_cache.insert_at(new_id, test_cached_message(topic, new_id, 256), now));
    assert_eq!(age_cache.stats_at(now).evicted_by_age, 1);

    let mut bytes_cache = BoundedMessageCache::new(4, entry_bytes, Duration::from_secs(300));
    let msg_id = test_msg_id(3);
    assert!(bytes_cache.insert_at(msg_id, test_cached_message(topic, msg_id, 256), now));
    let msg_id = test_msg_id(4);
    assert!(bytes_cache.insert_at(msg_id, test_cached_message(topic, msg_id, 256), now));
    assert_eq!(bytes_cache.stats_at(now).evicted_by_bytes, 1);

    let mut count_cache = BoundedMessageCache::new(1, usize::MAX, Duration::from_secs(300));
    let msg_id = test_msg_id(5);
    assert!(count_cache.insert_at(msg_id, test_cached_message(topic, msg_id, 256), now));
    let msg_id = test_msg_id(6);
    assert!(count_cache.insert_at(msg_id, test_cached_message(topic, msg_id, 256), now));
    assert_eq!(count_cache.stats_at(now).evicted_by_count, 1);
}

#[test]
fn bounded_cache_get_prunes_expired() {
    let topic = TopicId::new([6u8; 32]);
    let now = start();
    let msg_id = test_msg_id(1);
    let mut cache = BoundedMessageCache::new(4, usize::MAX, Duration::from_secs(10));

    assert!(cache.insert_at(msg_id, test_cached_message(topic, msg_id, 128), before(now, 11)));

    assert!(cache.get_at(&msg_id, now).is_none());
    let stats = cache.stats_at(now);
    assert_eq!(stats.msg_count, 0);
    assert_eq!(stats.evicted_by_age, 1);
}

#[test]
fn bounded_cache_simulated_load_stays_within_caps() {
    let topic = TopicId::new([7u8; 32]);
    let begin = start();
    let sample = test_cached_message(topic, test_msg_id(0), 5 * 1024);
    let entry_bytes = estimate_message_bytes(&sample);
    let max_bytes = entry_bytes * 64;
    let mut cache = BoundedMessageCache::new(128, max_bytes, Duration::from_secs(90));

    for i in 0..5_000_u64 {
        let msg_id = test_msg_id(i);
        let now = begin.plus(Duration::from_millis(i * 300));
        assert!(cache.insert_at(msg_id, test_cached_message(topic, msg_id, 5 * 1024), now));
        let stats = cache.stats_at(now);
        assert!(stats.msg_count <= 128);
        assert!(stats.total_bytes <= max_bytes);
    }

    let stats = cache.stats_at(begin.plus(Duration::from_secs(1_500)));
    assert!(stats.evicted_by_age > 0 || stats.evicted_by_bytes > 0 || stats.evicted_by_count > 0);
}

#[test]
fn test_message_cache_capacity_is_bounded() {
    let mut state = new_topic();
    let topic = TopicId::new([1u8; 32]);

    for i in 0..(MAX_CACHE_SIZE + 128) {
        let mut msg_id = [0u8; 32];
        msg_id[..8].copy_from_slice(&(i as u64).to_le_bytes());
        state.cache_message(msg_id, vec![i as u8], header(topic, msg_id), start());
    }

    assert_eq!(
        state.message_cache.len(),
        MAX_CACHE_SIZE,
        "message cache must not grow beyond the configured per-topic cap"
    );

    let mut first_msg_id = [0u8; 32];
    first_msg_id[..8].copy_from_slice(&0u64.to_le_bytes());
    assert!(
        !state.has_message(&first_msg_id),
        "oldest message should be evicted after capacity is exceeded"
    );
}

#[test]
fn oversized_message_is_refused_and_replaces_nothing_but_its_namesake() {
    let topic = TopicId::new([8u8; 32]);
    let now = start();
    let small = test_cached_message(topic, test_msg_id(1), 10);
    let bound = estimate_message_bytes(&small) * 2;
    let mut cache = BoundedMessageCache::new(4, bound, Duration::from_secs(60));
    assert!(cache.insert_at(test_msg_id(1), test_cached_message(topic, test_msg_id(1), 10), now));
    assert!(cache.insert_at(test_msg_id(2), test_cached_message(topic, test_msg_id(2), 10), now));
    assert!(!cache.insert_at(test_msg_id(1), test_cached_message(topic, test_msg_id(1), bound), now));
    assert!(!cache.contains(&test_msg_id(1)));
    assert!(cache.contains(&test_msg_id(2)));
    let stats = cache.stats_at(now);
    assert_eq!((stats.evicted_by_age, stats.evicted_by_bytes, stats.evicted_by_count), (0, 0, 0));
    assert_eq!(stats.total_bytes, 10 + 256 + 5_500);
}

#[test]
fn reading_a_message_keeps_it_from_eviction() {
    let topic = TopicId::new([9u8; 32]);
    let now = start();
    let mut cache = BoundedMessageCache::new(2, usize::MAX, Duration::from_secs(60));
    cache.insert_at(test_msg_id(1), test_cached_message(topic, test_msg_id(1), 1), now);
    cache.insert_at(test_msg_id(2), test_cached_message(topic, test_msg_id(2), 2), now);
    assert_eq!(cache.ids(), vec![test_msg_id(2), test_msg_id(1)]);
    let later = now.plus(Duration::from_secs(59));
    assert_eq!(cache.get_at(&test_msg_id(1), later).expect("cached").payload.len(), 1);
    assert_eq!(cache.ids(), vec![test_msg_id(1), test_msg_id(2)]);
    cache.insert_at(test_msg_id(3), test_cached_message(topic, test_msg_id(3), 3), later);
    assert!(cache.contains(&test_msg_id(1)));
    assert!(!cache.contains(&test_msg_id(2)));
    // Reading does not make a message younger.
    let at_age = now.plus(Duration::from_secs(60));
    assert!(cache.get_at(&test_msg_id(1), at_age).is_none());
    assert_eq!(cache.stats_at(at_age).oldest_age_secs, 1);
}

#[test]
fn test_payload_replay_detected() {
    let mut state = new_topic();
    let payload = b"hello world";

    assert!(!state.is_payload_replay(payload, start()), "First insert should be new");
    assert!(state.is_payload_replay(payload, start()), "Second insert should be replay");
}

#[test]
fn test_payload_replay_different_payloads_pass() {
    let mut state = new_topic();

    assert!(!state.is_payload_replay(b"message 1", start()));
    assert!(!state.is_payload_replay(b"message 2", start()));
    assert!(!state.is_payload_replay(b"message 3", start()));
}

#[test]
fn test_payload_replay_lru_eviction() {
    let mut state = new_topic();

    // Fill the cache beyond capacity
    for i in 0..REPLAY_CACHE_MAX_ENTRIES + 100 {
        let payload = format!("payload-{i}");
        assert!(!state.is_payload_replay(payload.as_bytes(), start()));
    }

    // Cache should not exceed max entries
    assert!(state.replay_cache.len() <= REPLAY_CACHE_MAX_ENTRIES);

    // The very first entry should have been evicted
    assert!(
        !state.is_payload_replay(b"payload-0", start()),
        "Evicted entry should be accepted as new again"
    );
}

#[test]
fn payloads_are_new_again_after_their_time() {
    let mut state = new_topic();
    assert!(!state.is_payload_replay(b"x", start()));
    assert!(state.is_payload_replay(b"x", start().plus(Duration::from_secs(299))));
    // A replay does not start the time anew.
    assert!(!state.is_payload_replay(b"x", start().plus(Duration::from_secs(300))));
    assert_eq!(state.replay_cache.len(), 1);
    state.clean_cache(start().plus(Duration::from_secs(600)));
    assert_eq!(state.replay_cache.len(), 1, "an entry that has just reached its time is kept");
    state.clean_cache(start().plus(Duration::from_secs(601)));
    assert_eq!(state.replay_cache.len(), 0);
}

#[test]
fn cache_expires_with_the_topic_cleanup() {
    let mut state = new_topic();
    let topic = TopicId::new([1u8; 32]);
    state.cache_message(test_msg_id(1), b"test".to_vec(), header(topic, test_msg_id(1)), start());
    let got = state.get_message(&test_msg_id(1), start()).expect("cached");
    assert_eq!(got.payload, b"test".to_vec());
    assert_eq!(got.header, header(topic, test_msg_id(1)));
    state.clean_cache(start().plus(Duration::from_secs(MAX_CACHE_AGE_SECS + 10)));
    assert_eq!(state.message_cache.len(), 0);
    assert!(state.cached_message_ids().is_empty());
}
