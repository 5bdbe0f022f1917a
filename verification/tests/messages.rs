use saorsa_gossip_pubsub::cache::{CachedMessage, PubSubCacheConfig};
use saorsa_gossip_pubsub::collections::IdMap;
use saorsa_gossip_pubsub::digest::content_hash;
use saorsa_gossip_pubsub::hashing::{
    calculate_msg_id, deterministic_jitter, jitter_from_digest, msg_id_for_payload, msg_id_hex8, partner_hash,
    payload_zero_tail, shard_count_for, shard_index, u64_low_bytes,
};
use saorsa_gossip_pubsub::ids::{MessageId, PeerId, TopicId};
use saorsa_gossip_pubsub::inbound::{ensure_topic, long_term_notes, subscribe, EagerOutcome, LongTermNotes, TopicConfig};
use saorsa_gossip_pubsub::mesh::{MeshScores, PeerRank};
use saorsa_gossip_pubsub::message::{GossipMessage, MessageHeader, MessageKind};
use saorsa_gossip_pubsub::outbound::{
    announcement, collect_digest_work, collect_ihave_work, digest_message, frame, publish_header, request,
};
use saorsa_gossip_pubsub::peek_message_kind;
use saorsa_gossip_pubsub::recovery::receive_response;
use saorsa_gossip_pubsub::routing::{
    open_frame, read_payload, route_content, route_message, InboundError, PayloadContent, Route,
};
use saorsa_gossip_pubsub::stats::PubSubStageStats;
use saorsa_gossip_pubsub::time::{Duration, Instant};
use saorsa_gossip_pubsub::topic::TopicState;
use saorsa_gossip_pubsub::topics::unsubscribe;
use saorsa_gossip_pubsub::wire::{
    decode_anti_entropy, decode_ids, decode_message, encode_anti_entropy, encode_header, encode_ids, encode_message,
    kind_code, kind_from_code, AntiEntropyPayload,
};

fn start() -> Instant {
    Instant { nanos: 100_000_000_000_000 }
}

fn peer(id: u8) -> PeerId {
    let mut bytes = [0u8; 32];
    bytes[0] = id;
    PeerId::new(bytes)
}

fn header(topic: TopicId, msg_id: MessageId, kind: MessageKind) -> MessageHeader {
    MessageHeader { version: 1, topic, msg_id, kind, hop: 0, ttl: 10 }
}

fn message(topic: TopicId, msg_id: MessageId, kind: MessageKind, payload: &[u8]) -> GossipMessage {
    GossipMessage {
        header: header(topic, msg_id, kind),
        payload: Some(payload.to_vec()),
        signature: vec![7u8; 9],
        public_key: vec![8u8; 5],
    }
}

/// Nobody stands out.
fn even() -> MeshScores {
    MeshScores { ranks: IdMap::new(), unranked: PeerRank { score: 5, challenge: 6 }, eager_min: 5 }
}

fn new_topic() -> TopicState {
    TopicState::with_cache_config(PubSubCacheConfig::default(), start())
}

#[test]
fn peek_message_kind_reads_kind_without_full_decode() {
    let topic = TopicId::new([3u8; 32]);
    // EAGER (data) — preserved under pressure.
    let eager = message(topic, [1u8; 32], MessageKind::Eager, b"data");
    let eager_wire = encode_message(&eager);
    assert_eq!(peek_message_kind(&eager_wire), Some(MessageKind::Eager));

    // Recoverable control kinds — shed-eligible under pressure.
    for kind in [MessageKind::IHave, MessageKind::IWant, MessageKind::AntiEntropy] {
        let msg = message(topic, [2u8; 32], kind, b"c");
        let wire = encode_message(&msg);
        assert_eq!(
            peek_message_kind(&wire),
            Some(kind),
            "peek must read {kind:?} from the header prefix"
        );
    }

    // Garbage / truncated frame decodes to None, never panics.
    assert_eq!(peek_message_kind(b""), None);
    assert_eq!(peek_message_kind(&[0xff, 0xff, 0xff]), None);
}

#[test]
fn test_anti_entropy_payload_serialization() {
    // Test Digest variant round-trips through postcard
    let digest = AntiEntropyPayload::Digest { msg_ids: vec![[1u8; 32], [2u8; 32], [3u8; 32]] };
    let bytes = encode_anti_entropy(&digest);
    let deserialized = decode_anti_entropy(&bytes).expect("deserialize digest");

    assert!(
        matches!(deserialized, AntiEntropyPayload::Digest { .. }),
        "Expected Digest, got Response"
    );
    if let AntiEntropyPayload::Digest { msg_ids } = deserialized {
        assert_eq!(msg_ids.len(), 3);
        assert_eq!(msg_ids[0], [1u8; 32]);
        assert_eq!(msg_ids[1], [2u8; 32]);
        assert_eq!(msg_ids[2], [3u8; 32]);
    }

    // Test Response variant round-trips through postcard
    let response = AntiEntropyPayload::Response { missing_ids: vec![[4u8; 32], [5u8; 32]] };
    let bytes = encode_anti_entropy(&response);
    let deserialized = decode_anti_entropy(&bytes).expect("deserialize response");

    assert!(
        matches!(deserialized, AntiEntropyPayload::Response { .. }),
        "Expected Response, got Digest"
    );
    if let AntiEntropyPayload::Response { missing_ids } = deserialized {
        assert_eq!(missing_ids.len(), 2);
        assert_eq!(missing_ids[0], [4u8; 32]);
        assert_eq!(missing_ids[1], [5u8; 32]);
    }
}

#[test]
fn test_anti_entropy_payload_empty_serialization() {
    let digest = AntiEntropyPayload::Digest { msg_ids: Vec::new() };
    let bytes = encode_anti_entropy(&digest);
    let deserialized = decode_anti_entropy(&bytes).expect("deserialize empty digest");

    assert!(
        matches!(deserialized, AntiEntropyPayload::Digest { .. }),
        "Expected Digest, got Response"
    );
    if let AntiEntropyPayload::Digest { msg_ids } = deserialized {
        assert!(msg_ids.is_empty());
    }
}

#[test]
fn messages_have_their_bytes() {
    let topic = TopicId::new([3u8; 32]);
    let head = header(topic, [4u8; 32], MessageKind::AntiEntropy);
    let mut expected = vec![1u8];
    expected.extend([3u8; 32]);
    expected.extend([4u8; 32]);
    expected.extend([7u8, 0, 10]);
    assert_eq!(encode_header(&head), expected);

    let msg = GossipMessage { header: head, payload: Some(vec![9, 9]), signature: vec![5], public_key: vec![] };
    expected.extend([1u8, 2, 9, 9, 1, 5, 0]);
    let wire = encode_message(&msg);
    assert_eq!(wire, expected);
    let back = decode_message(&wire).expect("decodes");
    assert_eq!(back.header, head);
    assert_eq!(back.payload, Some(vec![9, 9]));
    assert_eq!(back.signature, vec![5]);
    assert_eq!(back.public_key, Vec::<u8>::new());

    // What follows a message is not looked at; a message that is cut short is none.
    let mut longer = wire.clone();
    longer.push(1);
    assert!(decode_message(&longer).is_some());
    assert!(decode_message(&wire[..wire.len() - 1]).is_none());

    // An unknown kind is no message.
    let mut odd = wire.clone();
    odd[65] = 9;
    assert!(decode_message(&odd).is_none());
    assert_eq!(peek_message_kind(&odd), None);

    let ids = vec![[1u8; 32], [2u8; 32]];
    let listed = encode_ids(&ids);
    assert_eq!(listed.len(), 65);
    assert_eq!(listed[0], 2);
    assert_eq!(decode_ids(&listed), Some(ids));
    assert_eq!(decode_ids(&[2, 0]), None);
    // A variant that does not exist.
    assert!(decode_anti_entropy(&[2, 0]).is_none());
    assert!(decode_anti_entropy(&[]).is_none());
}

#[test]
fn kinds_have_codes() {
    for code in 0..9u32 {
        let kind = kind_from_code(code).expect("a kind");
        assert_eq!(kind_code(kind), code);
    }
    assert_eq!(kind_from_code(9), None);
    assert_eq!(kind_code(MessageKind::Shuffle), 8);
}

#[test]
fn frames_are_opened_counted_and_routed() {
    let topic = TopicId::new([3u8; 32]);
    let mut stats = PubSubStageStats::default();
    assert!(open_frame(&mut stats, b"not-postcard").is_none());
    assert_eq!(stats.message_kinds.decode_failed, 1);

    let ids = vec![[1u8; 32]];
    let (ihave_header, ihave_payload) = announcement(topic, &ids).expect("announced");
    assert_eq!(ihave_header, header(topic, [1u8; 32], MessageKind::IHave));
    let bytes = frame(ihave_header, ihave_payload, vec![1], vec![2]);
    let opened = open_frame(&mut stats, &bytes).expect("opened");
    assert_eq!(stats.message_kinds.ihave, 1);

    let routed = route_message(&mut stats, &opened, true);
    assert!(routed.heard);
    assert!(matches!(routed.route, Route::IHave(ref listed) if *listed == ids));
    let routed = route_message(&mut stats, &opened, false);
    assert!(!routed.heard);
    assert!(matches!(routed.route, Route::Rejected(InboundError::InvalidSignature)));
    assert_eq!(stats.message_kinds.decode_failed, 1);

    let mut empty = opened.clone();
    empty.payload = None;
    let routed = route_message(&mut stats, &empty, true);
    assert!(routed.heard);
    assert!(matches!(routed.route, Route::Rejected(InboundError::MissingPayload)));
    let mut bad = opened.clone();
    bad.payload = Some(vec![9]);
    let routed = route_message(&mut stats, &bad, true);
    assert!(matches!(routed.route, Route::Rejected(InboundError::BadPayload)));
    assert_eq!(stats.message_kinds.decode_failed, 3);

    let (iwant_header, iwant_payload) = request(topic, &ids).expect("requested");
    let want = GossipMessage {
        header: iwant_header,
        payload: Some(iwant_payload),
        signature: vec![],
        public_key: vec![],
    };
    assert!(matches!(route_message(&mut stats, &want, true).route, Route::IWant(_)));

    let (ae_header, ae_payload) = digest_message(topic, ids.clone()).expect("listed");
    assert_eq!(ae_header.ttl, 1);
    assert_eq!(ae_header.msg_id, [0u8; 32]);
    let ae = GossipMessage { header: ae_header, payload: Some(ae_payload), signature: vec![], public_key: vec![] };
    let routed = route_message(&mut stats, &ae, true);
    assert!(matches!(
        routed.route,
        Route::AntiEntropy(AntiEntropyPayload::Digest { ref msg_ids }) if *msg_ids == ids
    ));

    let presence = message(topic, [1u8; 32], MessageKind::Presence, b"beacon");
    let routed = route_message(&mut stats, &presence, true);
    assert!(routed.heard && matches!(routed.route, Route::Ignored));
    assert!(!route_message(&mut stats, &presence, false).heard);
    let eager = message(topic, [1u8; 32], MessageKind::Eager, b"x");
    let routed = route_message(&mut stats, &eager, false);
    assert!(!routed.heard && matches!(routed.route, Route::Eager));
    // A list where a reconciliation is due is faulty.
    let routed = route_content(&mut stats, MessageKind::AntiEntropy, true, PayloadContent::Ids(ids));
    assert!(matches!(routed.route, Route::Rejected(InboundError::BadPayload)));
    assert!(matches!(read_payload(MessageKind::IHave, &None), PayloadContent::Missing));
}

#[test]
fn nothing_is_announced_or_asked_about_nothing() {
    let topic = TopicId::new([3u8; 32]);
    assert!(announcement(topic, &Vec::new()).is_none());
    assert!(request(topic, &Vec::new()).is_none());
    assert!(digest_message(topic, Vec::new()).is_none());
}

#[test]
fn full_messages_are_taken_once() {
    let topic = TopicId::new([8u8; 32]);
    let mut state = new_topic();
    let mut stats = PubSubStageStats::default();
    let head = header(topic, [9u8; 32], MessageKind::Eager);
    let payload = Some(b"novel".to_vec());
    let from = peer(2);
    let now = start();

    let forged = state.receive_eager(&mut stats, from, &head, &payload, false, now);
    assert_eq!(forged, EagerOutcome::InvalidSignature);
    assert!(!state.has_message(&head.msg_id));

    let first = state.receive_eager(&mut stats, from, &head, &payload, true, now);
    assert_eq!(first, EagerOutcome::Accepted { newly_lazy: true });
    assert!(state.has_message(&head.msg_id));
    assert!(state.lazy_peers.contains(&from));
    assert_eq!(state.peer_scores.get(&from).expect("scored").messages_delivered, 1);
    let (forward, in_mesh) = state.pass_on(&mut stats, from, head.msg_id, true, now, &even());
    assert!(forward.is_empty());
    assert!(in_mesh, "the mesh had room for its sender");
    assert_eq!(stats.message_kinds.graft, 1);
    assert_eq!(state.pending_ihave, vec![head.msg_id]);

    let second = state.receive_eager(&mut stats, from, &head, &payload, true, now);
    assert_eq!(second, EagerOutcome::Duplicate { pruned: true });
    assert!(state.lazy_peers.contains(&from) && !state.eager_peers.contains(&from));
    assert_eq!(stats.message_kinds.prune, 1);
    let third = state.receive_eager(&mut stats, from, &head, &payload, true, now);
    assert_eq!(third, EagerOutcome::Duplicate { pruned: false });

    // The same payload in another envelope.
    let wrapped = header(topic, [10u8; 32], MessageKind::Eager);
    let replay = state.receive_eager(&mut stats, peer(3), &wrapped, &payload, true, now);
    assert_eq!(replay, EagerOutcome::Replay);
    assert!(state.has_message(&wrapped.msg_id));
    assert!(!state.lazy_peers.contains(&peer(3)));

    let empty = header(topic, [11u8; 32], MessageKind::Eager);
    let missing = state.receive_eager(&mut stats, from, &empty, &None, true, now);
    assert_eq!(missing, EagerOutcome::MissingPayload);
    assert!(!state.has_message(&empty.msg_id));
}

#[test]
fn forwarding_leaves_the_sender_out() {
    let mut state = new_topic();
    for id in 1..5 {
        state.eager_peers.insert(peer(id));
    }
    let (mut forward, in_mesh) = state.forward_eager(peer(3), [1u8; 32]);
    forward.sort();
    assert_eq!(forward, vec![peer(1), peer(2), peer(4)]);
    assert!(in_mesh);
}

#[test]
fn own_messages_are_cached_and_not_taken_back() {
    let topic = TopicId::new([1u8; 32]);
    let me = peer(1);
    let mut state = new_topic();
    state.eager_peers.insert(peer(2));
    let payload = b"local message".to_vec();
    let head = publish_header(topic, 77, &me, &payload);
    assert_eq!(head.kind, MessageKind::Eager);
    assert_eq!((head.version, head.hop, head.ttl), (1, 0, 10));
    assert_eq!(head.msg_id, msg_id_for_payload(&topic, 77, &me, &payload));
    assert_eq!(state.publish_local(&head, &payload, start()), vec![peer(2)]);
    state.finish_publish(head.msg_id);
    assert!(state.has_message(&head.msg_id));
    assert_eq!(state.pending_ihave, vec![head.msg_id]);
    let mut stats = PubSubStageStats::default();
    let echo = header(topic, [99u8; 32], MessageKind::Eager);
    assert_eq!(
        state.receive_eager(&mut stats, peer(5), &echo, &Some(payload), true, start()),
        EagerOutcome::Replay
    );
}

#[test]
fn announcements_lead_to_requests_and_answers() {
    let topic = TopicId::new([1u8; 32]);
    let mut state = new_topic();
    let from = peer(2);
    let now = start();
    let unknown = [42u8; 32];
    let known = [41u8; 32];
    state.cache_message(known, b"known".to_vec(), header(topic, known, MessageKind::Eager), now);
    let later = now.plus(Duration::from_secs(1));
    let wanted = state.receive_ihave(from, &vec![unknown, known, unknown], later);
    assert_eq!(wanted, vec![unknown]);
    assert_eq!(state.last_activity, later);
    assert_eq!(state.outstanding_iwants.get(&unknown), Some(&(from, later)));
    assert_eq!(state.peer_scores.get(&from).expect("scored").iwant_requests, 1);
    assert!(state.receive_ihave(peer(3), &vec![unknown], later).is_empty(), "asked for already");

    let mut stats = PubSubStageStats::default();
    let head = header(topic, unknown, MessageKind::Eager);
    state.receive_eager(&mut stats, from, &head, &Some(b"requested message".to_vec()), true, later);
    let score = state.peer_scores.get(&from).expect("scored");
    assert_eq!((score.iwant_responses, score.messages_delivered), (1, 1));
    assert!(!state.outstanding_iwants.contains_key(&unknown));
}

#[test]
fn requests_are_served_from_the_cache() {
    let topic = TopicId::new([1u8; 32]);
    let mut state = new_topic();
    let now = start();
    let id = [5u8; 32];
    state.cache_message(id, b"cached".to_vec(), header(topic, id, MessageKind::Eager), now);
    let mut stats = PubSubStageStats::default();
    assert!(state.receive_iwant(&mut stats, peer(9), &vec![[6u8; 32]], now, &even()).is_empty());
    assert!(!state.lazy_peers.contains(&peer(9)), "nothing was served");
    assert!(!state.eager_peers.contains(&peer(9)));
    let ids = vec![[6u8; 32], id, id];
    let served: Vec<CachedMessage> = state.receive_iwant(&mut stats, peer(9), &ids, now, &even());
    assert_eq!(served.len(), 2);
    assert_eq!(served[0].payload, b"cached".to_vec());
    assert!(state.eager_peers.contains(&peer(9)), "the mesh had room");
    assert_eq!(stats.message_kinds.graft, 1);
    for other in 20..40 {
        state.receive_iwant(&mut stats, peer(other), &vec![id], now, &even());
    }
    assert_eq!(state.eager_peers.len(), 6);
    assert_eq!(state.lazy_peers.len(), 15);
    let too_late = now.plus(Duration::from_secs(60));
    assert!(state.receive_iwant(&mut stats, peer(9), &vec![id], too_late, &even()).is_empty());
}

#[test]
fn reconciliation_gives_and_asks() {
    let topic = TopicId::new([1u8; 32]);
    let now = start();
    let mut ours = new_topic();
    let mut theirs = new_topic();
    let (a, b, c) = ([1u8; 32], [2u8; 32], [3u8; 32]);
    for id in [a, b] {
        ours.cache_message(id, id[..4].to_vec(), header(topic, id, MessageKind::Eager), now);
    }
    for id in [b, c] {
        theirs.cache_message(id, id[..4].to_vec(), header(topic, id, MessageKind::Eager), now);
    }
    let digest = theirs.cached_message_ids();
    assert_eq!(digest, vec![c, b]);
    let (give, need) = ours.receive_digest(&digest, now);
    assert_eq!(give.len(), 1);
    assert_eq!(give[0].header.msg_id, a);
    assert_eq!(need, vec![c]);
    let mut stats = PubSubStageStats::default();
    let answer = theirs.receive_iwant(&mut stats, peer(1), &need, now, &even());
    assert_eq!(answer.len(), 1);
    assert_eq!(answer[0].payload, vec![3u8; 4]);

    let mut topics = IdMap::new();
    assert_eq!(receive_response(&mut topics, topic, &vec![a, c], now), vec![a, c]);
    topics.insert(topic, ours);
    assert_eq!(receive_response(&mut topics, topic, &vec![a, c], now), vec![c]);
}

#[test]
fn announcements_go_out_in_batches() {
    let mut topics = IdMap::new();
    let quiet = TopicId::new([1u8; 32]);
    let busy = TopicId::new([2u8; 32]);
    assert!(ensure_topic(&mut topics, quiet, TopicConfig::default(), start()));
    assert!(ensure_topic(&mut topics, busy, TopicConfig::default(), start()));
    assert!(!ensure_topic(&mut topics, busy, TopicConfig::default(), start()));
    let ids: Vec<MessageId> = (0..1030u64)
        .map(|n| {
            let mut id = [0u8; 32];
            id[..8].copy_from_slice(&n.to_le_bytes());
            id
        })
        .collect();
    {
        let state = topics.get_mut(&busy).expect("there");
        state.lazy_peers.insert(peer(4));
        state.pending_ihave = ids.clone();
    }
    let work = collect_ihave_work(&mut topics);
    assert_eq!(work.len(), 1);
    assert_eq!(work[0].topic, busy);
    assert_eq!(work[0].batch, ids[..1024].to_vec());
    assert_eq!(work[0].lazy_peers, vec![peer(4)]);
    let rest = collect_ihave_work(&mut topics);
    assert_eq!(rest[0].batch, ids[1024..].to_vec());
    assert!(collect_ihave_work(&mut topics).is_empty());
}

#[test]
fn partners_are_picked_by_chance() {
    let topic = TopicId::new([1u8; 32]);
    let mut state = new_topic();
    assert_eq!(state.any_peer(), None);
    state.lazy_peers.insert(peer(3));
    state.eager_peers.insert(peer(2));
    assert_eq!(state.any_peer(), Some(peer(2)));
    assert_eq!(state.partner_for(0), None, "nothing to reconcile");
    let id = [5u8; 32];
    state.cache_message(id, b"x".to_vec(), header(topic, id, MessageKind::Eager), start());
    assert_eq!(state.partner_for(4), Some(peer(2)));
    assert_eq!(state.partner_for(7), Some(peer(3)));
    let hash = partner_hash(&topic, 1_700_000_000);
    assert_eq!(state.partner_at(&topic, 1_700_000_000), state.partner_for(hash[0]));
    let mut input = topic.to_bytes().to_vec();
    input.extend(1_700_000_000u64.to_le_bytes());
    assert_eq!(hash, *blake3::hash(&input).as_bytes());
}

#[test]
fn subscribers_start_topics_and_leaving_drops_them() {
    let mut topics = IdMap::new();
    let topic = TopicId::new([1u8; 32]);
    subscribe(&mut topics, topic, TopicConfig::default(), start());
    subscribe(&mut topics, topic, TopicConfig::default(), start());
    assert_eq!(topics.get(&topic).expect("there").live_subscribers, 2);
    let mut stats = PubSubStageStats::default();
    stats.record_peer_suppressed(topic, peer(1), start(), 8, Duration::from_secs(30), 0);
    stats.record_peer_suppressed(TopicId::new([2u8; 32]), peer(1), start(), 8, Duration::from_secs(30), 0);
    assert!(unsubscribe(&mut topics, &mut stats, topic));
    assert!(!unsubscribe(&mut topics, &mut stats, topic));
    assert_eq!(stats.suppressed_peer_count(), 1);
    assert_eq!(topics.len(), 0);
}

#[test]
fn hashes_name_messages() {
    assert_eq!(content_hash(b"hello"), *blake3::hash(b"hello").as_bytes());
    let topic = TopicId::new([1u8; 32]);
    let me = peer(7);
    let payload_hash = *blake3::hash(b"payload").as_bytes();
    let mut hasher = blake3::Hasher::new();
    hasher.update(topic.as_bytes());
    hasher.update(&2u64.to_le_bytes());
    hasher.update(me.as_bytes());
    hasher.update(&payload_hash);
    let expected = *hasher.finalize().as_bytes();
    assert_eq!(calculate_msg_id(&topic, 2, &me, &payload_hash), expected);
    assert_eq!(msg_id_for_payload(&topic, 2, &me, b"payload"), expected);
    assert_eq!(u64_low_bytes(0x0102_0304_0506_0708), vec![8, 7, 6, 5, 4, 3, 2, 1]);
}

#[test]
fn delays_differ_and_stay_below_their_bound() {
    let max = Duration::from_secs(30);
    let a = deterministic_jitter(peer(1), b"pubsub-degree", max);
    assert_eq!(a, deterministic_jitter(peer(1), b"pubsub-degree", max));
    assert_ne!(a, deterministic_jitter(peer(2), b"pubsub-degree", max));
    assert!(a < max);
    let mut input = peer(1).as_bytes().to_vec();
    input.extend_from_slice(b"pubsub-degree");
    let hash = *blake3::hash(&input).as_bytes();
    let raw = u64::from_le_bytes([hash[0], hash[1], hash[2], hash[3], hash[4], hash[5], hash[6], hash[7]]);
    assert_eq!(a, Duration::from_millis(raw % 30_000));
    assert_eq!(deterministic_jitter(peer(1), b"x", Duration::zero()), Duration::zero());
    let mut digest = [0u8; 32];
    digest[0] = 5;
    digest[1] = 1;
    assert_eq!(jitter_from_digest(&digest, Duration::from_millis(100)), Duration::from_millis(61));
    // Below a millisecond there is no delay to choose from.
    assert_eq!(jitter_from_digest(&digest, Duration { nanos: 10 }), Duration::zero());
}

#[test]
fn shards_are_powers_of_two() {
    assert_eq!(shard_count_for(0), 2);
    assert_eq!(shard_count_for(2), 2);
    assert_eq!(shard_count_for(3), 4);
    assert_eq!(shard_count_for(32), 32);
    assert_eq!(shard_count_for(33), 64);
    let topic_a = TopicId::new([0u8; 32]);
    let topic_b = TopicId::new([1u8; 32]);
    assert_eq!(shard_index(&topic_a, 32), 0);
    assert_eq!(shard_index(&topic_b, 32), 1);
    let mut bytes = [0u8; 32];
    bytes[7] = 0x80;
    bytes[0] = 0xFF;
    bytes[8] = 0xFF;
    assert_eq!(shard_index(&TopicId::new(bytes), 64), 63);
}

#[test]
fn short_names_and_tails_are_for_traces() {
    let mut id = [0u8; 32];
    id[0] = 0xAB;
    id[7] = 0x0F;
    assert_eq!(msg_id_hex8(&id), "ab0000000000000f");
    assert_eq!(payload_zero_tail(&[1, 0, 2, 0, 0]), 2);
    assert_eq!(payload_zero_tail(&[0, 0]), 2);
    assert_eq!(payload_zero_tail(&[]), 0);
}

#[test]
fn digests_go_out_from_topics_with_messages_and_peers() {
    let now = start();
    let mut topics = IdMap::new();
    let (busy, quiet, lonely) = (TopicId::new([1u8; 32]), TopicId::new([2u8; 32]), TopicId::new([3u8; 32]));
    for topic in [busy, quiet, lonely] {
        ensure_topic(&mut topics, topic, TopicConfig::default(), now);
    }
    let id = [5u8; 32];
    for topic in [busy, lonely] {
        let state = topics.get_mut(&topic).expect("there");
        state.cache_message(id, b"cached".to_vec(), header(topic, id, MessageKind::Eager), now);
    }
    for topic in [busy, quiet] {
        let state = topics.get_mut(&topic).expect("there");
        state.eager_peers.insert(peer(1));
        state.lazy_peers.insert(peer(2));
    }
    for second in 0..20 {
        let work = collect_digest_work(&topics, second);
        assert_eq!(work.len(), 1);
        assert_eq!(work[0].topic, busy);
        assert_eq!(work[0].ids, vec![id]);
        let chosen = if partner_hash(&busy, second)[0] % 2 == 0 { peer(1) } else { peer(2) };
        assert_eq!(work[0].peer, chosen);
    }
}

#[test]
fn outcomes_are_noted_for_the_sender() {
    let none = LongTermNotes { invalid_message: false, mesh_pruned: false, first_delivery: false, mesh_join: false };
    assert_eq!(
        long_term_notes(EagerOutcome::InvalidSignature, true),
        LongTermNotes { invalid_message: true, ..none }
    );
    assert_eq!(
        long_term_notes(EagerOutcome::Duplicate { pruned: true }, true),
        LongTermNotes { mesh_pruned: true, ..none }
    );
    assert_eq!(long_term_notes(EagerOutcome::Duplicate { pruned: false }, true), none);
    assert_eq!(long_term_notes(EagerOutcome::MissingPayload, true), none);
    assert_eq!(long_term_notes(EagerOutcome::Replay, true), LongTermNotes { first_delivery: true, ..none });
    assert_eq!(
        long_term_notes(EagerOutcome::Accepted { newly_lazy: false }, true),
        LongTermNotes { first_delivery: true, mesh_join: true, ..none }
    );
    assert_eq!(
        long_term_notes(EagerOutcome::Accepted { newly_lazy: true }, false),
        LongTermNotes { first_delivery: true, ..none }
    );
}

#[test]
fn new_topics_start_with_the_usual_bounds() {
    let config = TopicConfig::default();
    assert_eq!(config.cache, PubSubCacheConfig::default());
    assert_eq!(config.cache.max_messages_per_topic, 2_048);
    assert_eq!(config.cache.max_age, Duration::from_secs(60));
    assert_eq!(config.max_eager_degree, 12);
    assert_eq!(config.with_eager_degree_ceiling(3).max_eager_degree, 3);
    assert_eq!(config.with_eager_degree_ceiling(3).with_eager_degree_ceiling(0).max_eager_degree, 12);
    assert_eq!(config.with_eager_degree_ceiling(3).cache, config.cache);
}

#[test]
fn payloads_count_as_seen_for_five_minutes() {
    let topic = TopicId::new([8u8; 32]);
    let mut topics = IdMap::new();
    let now = start();
    ensure_topic(&mut topics, topic, TopicConfig::default(), now);
    let state = topics.get_mut(&topic).expect("there");
    let mut stats = PubSubStageStats::default();
    let payload = Some(b"same payload".to_vec());
    let mut take = |id: u8, at: Instant| {
        let head = header(topic, [id; 32], MessageKind::Eager);
        state.receive_eager(&mut stats, peer(2), &head, &payload, true, at)
    };
    assert_eq!(take(1, now), EagerOutcome::Accepted { newly_lazy: true });
    assert_eq!(take(2, now.plus(Duration::from_millis(299_999))), EagerOutcome::Replay);
    assert_eq!(take(3, now.plus(Duration::from_secs(300))), EagerOutcome::Accepted { newly_lazy: false });
}

#[test]
fn payloads_of_unsigned_messages_are_not_read() {
    let topic = TopicId::new([8u8; 32]);
    for kind in [MessageKind::IHave, MessageKind::IWant, MessageKind::AntiEntropy] {
        let mut stats = PubSubStageStats::default();
        let odd = message(topic, [1u8; 32], kind, &[0xff, 0xff]);
        let routed = route_message(&mut stats, &odd, false);
        assert!(!routed.heard);
        assert!(matches!(routed.route, Route::Rejected(InboundError::InvalidSignature)));
        assert_eq!(stats.message_kinds.decode_failed, 0);
        let routed = route_message(&mut stats, &odd, true);
        assert!(routed.heard);
        assert!(matches!(routed.route, Route::Rejected(InboundError::BadPayload)));
        assert_eq!(stats.message_kinds.decode_failed, 1);
    }
}
