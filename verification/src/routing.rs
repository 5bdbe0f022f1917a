//! Where a message that comes in goes, and whether one that goes out is let through.

use vstd::prelude::*;

use crate::budget::{OutboundSendClass, OutboundSendPermit, TopicPriority};
use crate::claims::{permits_match, ClaimOutcome, SendContext};
use crate::config::{millis, PER_PEER_REPUBLISH_TIMEOUT_MS};
use crate::cooling::{PeerHealth, PeerSendAttempt, SendAttemptKind};
use crate::ids::{MessageId, PeerId};
use crate::message::{GossipMessage, MessageKind};
use crate::results::{PeerSendCompletion, PeerSendOutcome};
use crate::stats::{PubSubMessageKindStats, PubSubStageStats};
use crate::time::{min_span, Duration, Instant};
use crate::timing::{p95_of, timeout_for, PerPeerRttTracker, PER_PEER_TIMEOUT_CEILING_MS};
use crate::topic::TopicState;
use crate::wire::{
    decode_anti_entropy, decode_ids, decode_message, decoded_as, ids_in, tagged_ids_in,
    AntiEntropyPayload,
};

verus! {

/// Why a message was not taken.
#[derive(Clone, Copy, Debug, PartialEq, Eq, Structural)]
pub enum InboundError {
    InvalidSignature,
    MissingPayload,
    BadPayload,
}

/// What the payload of a control message holds.
pub enum PayloadContent {
    Missing,
    Bad,
    Ids(Vec<MessageId>),
    Reconciliation(AntiEntropyPayload),
}

/// What is to be done with a message.
pub enum Route {
    /// A full message; its signature is looked at there.
    Eager,
    /// An announcement.
    IHave(Vec<MessageId>),
    /// A request.
    IWant(Vec<MessageId>),
    /// A part of a reconciliation.
    AntiEntropy(AntiEntropyPayload),
    /// Nothing: it is not for this layer.
    Ignored,
    /// Nothing: it is faulty.
    Rejected(InboundError),
}

/// What is to be done with a message, and whether its sender counts as heard of.
pub struct Routed {
    pub heard: bool,
    pub route: Route,
}

/// Counts a message by its kind, or as one that could not be decoded.
pub fn count_decoded(stats: &mut PubSubStageStats, decoded: &Option<GossipMessage>)
    ensures
        *final(stats) == (PubSubStageStats {
            message_kinds: match *decoded {
                Some(message) => old(stats).message_kinds.kind_counted(message.header.kind),
                None => PubSubMessageKindStats {
                    decode_failed: old(stats).message_kinds.decode_failed.wrapping_add(1),
                    ..old(stats).message_kinds
                },
            },
            ..*old(stats)
        }),
{
    match decoded {
        Some(message) => stats.message_kinds.record_kind(message.header.kind),
        None => stats.message_kinds.record_decode_failed(),
    }
}

/// Decodes and counts a message. `None` where the bytes are no message.
pub fn open_frame(stats: &mut PubSubStageStats, data: &[u8]) -> (r: Option<GossipMessage>)
    ensures
        decoded_as(data@, r),
        *final(stats) == (PubSubStageStats {
            message_kinds: match r {
                Some(message) => old(stats).message_kinds.kind_counted(message.header.kind),
                None => PubSubMessageKindStats {
                    decode_failed: old(stats).message_kinds.decode_failed.wrapping_add(1),
                    ..old(stats).message_kinds
                },
            },
            ..*old(stats)
        }),
{
    let decoded = decode_message(data);
    count_decoded(stats, &decoded);
    decoded
}

/// What the payload of a control message holds: a list of identifiers, or a part of a
/// reconciliation.
pub open spec fn content_of(kind: MessageKind, payload: Option<Vec<u8>>, content: PayloadContent) -> bool {
    match payload {
        None => content is Missing,
        Some(bytes) => if kind == MessageKind::AntiEntropy {
            match tagged_ids_in(bytes@) {
                Some((tag, ids)) => if tag <= 1 {
                    match content {
                        PayloadContent::Reconciliation(said) => said.tag() == tag && said.ids() == ids,
                        _ => false,
                    }
                } else {
                    content is Bad
                },
                None => content is Bad,
            }
        } else {
            match ids_in(bytes@) {
                Some(ids) => match content {
                    PayloadContent::Ids(listed) => listed@ == ids,
                    _ => false,
                },
                None => content is Bad,
            }
        },
    }
}

/// Reads the payload of a control message.
pub fn read_payload(kind: MessageKind, payload: &Option<Vec<u8>>) -> (r: PayloadContent)
    ensures
        content_of(kind, *payload, r),
{
    match payload {
        None => PayloadContent::Missing,
        Some(bytes) => {
            if kind == MessageKind::AntiEntropy {
                match decode_anti_entropy(bytes.as_slice()) {
                    Some(said) => PayloadContent::Reconciliation(said),
                    None => PayloadContent::Bad,
                }
            } else {
                match decode_ids(bytes.as_slice()) {
                    Some(ids) => PayloadContent::Ids(ids),
                    None => PayloadContent::Bad,
                }
            }
        },
    }
}

/// A kind whose payload is read here.
pub open spec fn is_control(kind: MessageKind) -> bool {
    kind == MessageKind::IHave || kind == MessageKind::IWant || kind == MessageKind::AntiEntropy
}

/// What is to be done with a message of some kind whose payload holds `content`.
pub open spec fn routed_as(kind: MessageKind, signature_valid: bool, content: PayloadContent, routed: Routed) -> bool {
    if kind == MessageKind::Eager {
        !routed.heard && routed.route is Eager
    } else if !is_control(kind) {
        routed.heard == signature_valid && routed.route is Ignored
    } else if !signature_valid {
        !routed.heard && routed.route == Route::Rejected(InboundError::InvalidSignature)
    } else {
        &&& routed.heard
        &&& match content {
            PayloadContent::Missing => routed.route == Route::Rejected(InboundError::MissingPayload),
            PayloadContent::Bad => routed.route == Route::Rejected(InboundError::BadPayload),
            PayloadContent::Ids(ids) => if kind == MessageKind::IHave {
                routed.route == Route::IHave(ids)
            } else if kind == MessageKind::IWant {
                routed.route == Route::IWant(ids)
            } else {
                routed.route == Route::Rejected(InboundError::BadPayload)
            },
            PayloadContent::Reconciliation(said) => if kind == MessageKind::AntiEntropy {
                routed.route == Route::AntiEntropy(said)
            } else {
                routed.route == Route::Rejected(InboundError::BadPayload)
            },
        }
    }
}

/// Whether a payload could not be read.
pub open spec fn is_unreadable(route: Route) -> bool {
    route == Route::Rejected(InboundError::MissingPayload) || route == Route::Rejected(InboundError::BadPayload)
}

/// Decides what is to be done with a message whose payload was read.
pub fn route_content(
    stats: &mut PubSubStageStats,
    kind: MessageKind,
    signature_valid: bool,
    content: PayloadContent,
) -> (r: Routed)
    ensures
        routed_as(kind, signature_valid, content, r),
        *final(stats) == (if is_unreadable(r.route) {
            PubSubStageStats {
                message_kinds: PubSubMessageKindStats {
                    decode_failed: old(stats).message_kinds.decode_failed.wrapping_add(1),
                    ..old(stats).message_kinds
                },
                ..*old(stats)
            }
        } else {
            *old(stats)
        }),
{
    match kind {
        MessageKind::Eager => Routed { heard: false, route: Route::Eager },
        MessageKind::IHave | MessageKind::IWant | MessageKind::AntiEntropy => {
            if !signature_valid {
                return Routed { heard: false, route: Route::Rejected(InboundError::InvalidSignature) };
            }
            let route = match content {
                PayloadContent::Missing => Route::Rejected(InboundError::MissingPayload),
                PayloadContent::Bad => Route::Rejected(InboundError::BadPayload),
                PayloadContent::Ids(ids) => match kind {
                    MessageKind::IHave => Route::IHave(ids),
                    MessageKind::IWant => Route::IWant(ids),
                    _ => Route::Rejected(InboundError::BadPayload),
                },
                PayloadContent::Reconciliation(said) => match kind {
                    MessageKind::AntiEntropy => Route::AntiEntropy(said),
                    _ => Route::Rejected(InboundError::BadPayload),
                },
            };
            match route {
                Route::Rejected(InboundError::MissingPayload) | Route::Rejected(InboundError::BadPayload) => {
                    stats.message_kinds.record_decode_failed();
                },
                _ => {},
            }
            Routed { heard: true, route }
        },
        _ => Routed { heard: signature_valid, route: Route::Ignored },
    }
}

/// Whether the payload of a message is looked at: only that of a control message, and only where
/// the signature is good.
pub open spec fn is_read(kind: MessageKind, signature_valid: bool) -> bool {
    is_control(kind) && signature_valid
}

/// Decides what is to be done with a message.
pub fn route_message(stats: &mut PubSubStageStats, message: &GossipMessage, signature_valid: bool) -> (r: Routed)
    ensures
        exists|content: PayloadContent|
            {
                &&& is_read(message.header.kind, signature_valid) ==> content_of(
                    message.header.kind,
                    message.payload,
                    content,
                )
                &&& #[trigger] routed_as(message.header.kind, signature_valid, content, r)
            },
        *final(stats) == (if is_unreadable(r.route) {
            PubSubStageStats {
                message_kinds: PubSubMessageKindStats {
                    decode_failed: old(stats).message_kinds.decode_failed.wrapping_add(1),
                    ..old(stats).message_kinds
                },
                ..*old(stats)
            }
        } else {
            *old(stats)
        }),
{
    let control = match message.header.kind {
        MessageKind::IHave | MessageKind::IWant | MessageKind::AntiEntropy => true,
        _ => false,
    };
    let content = if control && signature_valid {
        read_payload(message.header.kind, &message.payload)
    } else {
        PayloadContent::Missing
    };
    let ghost read = content;
    let r = route_content(stats, message.header.kind, signature_valid, content);
    assert(routed_as(message.header.kind, signature_valid, read, r));
    r
}

/// A message with a wrong signature has no effect: its sender does not count as heard of, and no
/// list in it is looked at. A full message is looked at elsewhere.
pub proof fn wrong_signatures_have_no_effect(kind: MessageKind, content: PayloadContent, routed: Routed)
    requires
        routed_as(kind, false, content, routed),
    ensures
        !routed.heard,
        routed.route is Eager || routed.route is Ignored || routed.route is Rejected,
{
}

/// What the admission of a send is decided by.
#[derive(Clone, Copy, Debug, PartialEq, Eq)]
pub struct AdmissionRequest {
    pub peer: PeerId,
    pub health: Option<PeerHealth>,
    pub cooled: bool,
}

/// Whether a peer is suppressed on a topic that may not exist.
pub open spec fn cooled_on(state: Option<&TopicState>, peer: PeerId, now: Instant) -> bool {
    match state {
        Some(s) => s.peer_suppressed(peer, now),
        None => false,
    }
}

/// What the admission of sends to some peers is decided by, without those that are known not to be
/// connected.
pub open spec fn requests_for(ctx: SendContext, state: Option<&TopicState>, peers: Seq<PeerId>, now: Instant) -> Seq<
    AdmissionRequest,
>
    decreases peers.len(),
{
    if peers.len() == 0 {
        Seq::empty()
    } else {
        let before = requests_for(ctx, state, peers.drop_last(), now);
        let peer = peers.last();
        if ctx.disconnected(peer) {
            before
        } else {
            before.push(
                AdmissionRequest { peer, health: ctx.health_of(peer), cooled: cooled_on(state, peer, now) },
            )
        }
    }
}

/// What the admission of sends to some peers is decided by.
pub fn admission_requests(ctx: &SendContext, state: Option<&TopicState>, peers: &Vec<PeerId>, now: Instant) -> (r: Vec<
    AdmissionRequest,
>)
    requires
        ctx.wf(),
        state is Some ==> state->0.wf(),
    ensures
        r@ == requests_for(*ctx, state, peers@, now),
{
    let mut r: Vec<AdmissionRequest> = Vec::new();
    let mut i: usize = 0;
    assert(peers@.take(0) =~= Seq::empty());
    while i < peers.len()
        invariant
            i <= peers@.len(),
            ctx.wf(),
            state is Some ==> state->0.wf(),
            r@ == requests_for(*ctx, state, peers@.take(i as int), now),
        decreases peers@.len() - i,
    {
        let peer = peers[i];
        proof {
            assert(peers@.take(i + 1).drop_last() =~= peers@.take(i as int));
            assert(peers@.take(i + 1).last() == peer);
        }
        if !ctx.peer_is_transport_disconnected(&peer) {
            let cooled = match state {
                Some(s) => s.is_peer_suppressed_at(peer, now),
                None => false,
            };
            r.push(AdmissionRequest { peer, health: ctx.peer_health(&peer), cooled });
        }
        i = i + 1;
    }
    assert(peers@.take(peers@.len() as int) =~= peers@);
    r
}

/// The peers that were admitted.
pub open spec fn admitted_of(requests: Seq<AdmissionRequest>, decisions: Seq<bool>) -> Seq<PeerId>
    decreases requests.len(),
{
    if requests.len() == 0 {
        Seq::empty()
    } else {
        let before = admitted_of(requests.drop_last(), decisions);
        if decisions[requests.len() - 1] { before.push(requests.last().peer) } else { before }
    }
}

/// The peers that were admitted, and those of them whose admission is to be given back after the
/// send: on a bulk topic all, else none.
pub fn admitted_peers(requests: &Vec<AdmissionRequest>, decisions: &Vec<bool>, priority: TopicPriority) -> (r: (
    Vec<PeerId>,
    Vec<PeerId>,
))
    requires
        decisions@.len() == requests@.len(),
    ensures
        (r.0)@ == admitted_of(requests@, decisions@),
        (r.1)@ == if priority == TopicPriority::Bulk {
            admitted_of(requests@, decisions@)
        } else {
            Seq::<PeerId>::empty()
        },
{
    let mut admitted: Vec<PeerId> = Vec::new();
    let mut bulk: Vec<PeerId> = Vec::new();
    let mut i: usize = 0;
    assert(requests@.take(0) =~= Seq::empty());
    while i < requests.len()
        invariant
            i <= requests@.len(),
            decisions@.len() == requests@.len(),
            admitted@ == admitted_of(requests@.take(i as int), decisions@),
            bulk@ == if priority == TopicPriority::Bulk {
                admitted_of(requests@.take(i as int), decisions@)
            } else {
                Seq::<PeerId>::empty()
            },
        decreases requests@.len() - i,
    {
        proof {
            assert(requests@.take(i + 1).drop_last() =~= requests@.take(i as int));
            assert(requests@.take(i + 1).last() == requests@[i as int]);
        }
        if decisions[i] {
            admitted.push(requests[i].peer);
            if priority == TopicPriority::Bulk {
                bulk.push(requests[i].peer);
            }
        }
        i = i + 1;
    }
    assert(requests@.take(requests@.len() as int) =~= requests@);
    assert(bulk@ =~= if priority == TopicPriority::Bulk {
        admitted_of(requests@, decisions@)
    } else {
        Seq::<PeerId>::empty()
    });
    (admitted, bulk)
}

/// What comes of a send to a single peer.
#[derive(Clone, Copy, Debug, PartialEq, Eq)]
pub enum SingleSend {
    /// It does not go out. A critical control message that does not is an error to be counted.
    Skip { critical_control: bool },
    Send { attempt: PeerSendAttempt, permit: OutboundSendPermit },
}

/// Decides over a send to a single peer after its claim.
pub fn single_send(ctx: &SendContext, out: &ClaimOutcome) -> (r: SingleSend)
    requires
        permits_match(*out),
    ensures
        r == (if out.attempts@.len() > 0 {
            SingleSend::Send { attempt: out.attempts@[0], permit: out.permits@[0] }
        } else {
            SingleSend::Skip {
                critical_control: ctx.priority == TopicPriority::Critical && ctx.class() != OutboundSendClass::Data,
            }
        }),
{
    if out.attempts.len() > 0 {
        SingleSend::Send { attempt: out.attempts[0], permit: out.permits[0] }
    } else {
        let class = OutboundSendClass::for_op(ctx.op);
        SingleSend::Skip {
            critical_control: ctx.priority == TopicPriority::Critical && class != OutboundSendClass::Data,
        }
    }
}

/// What the end of a send to a single peer means: the successes, the timeouts, and whether the
/// sender is told of success. An error of the transport counts as a timeout of a recovery probe
/// only.
pub fn settle_single_send(attempt: PeerSendAttempt, outcome: PeerSendOutcome) -> (r: (
    Vec<PeerSendCompletion>,
    Vec<PeerSendAttempt>,
    bool,
))
    ensures
        (r.0)@ == (match outcome {
            PeerSendOutcome::Sent { observed } => seq![(PeerSendCompletion { attempt, observed })],
            _ => Seq::<PeerSendCompletion>::empty(),
        }),
        (r.1)@ == (if outcome is TimedOut || ((outcome is Failed || outcome is Panicked) && attempt.kind
            == SendAttemptKind::RecoveryProbe) {
            seq![attempt]
        } else {
            Seq::<PeerSendAttempt>::empty()
        }),
        r.2 == (outcome is Sent || outcome is TimedOut),
{
    let mut sent: Vec<PeerSendCompletion> = Vec::new();
    let mut timed_out: Vec<PeerSendAttempt> = Vec::new();
    let ok = match outcome {
        PeerSendOutcome::Sent { observed } => {
            sent.push(PeerSendCompletion { attempt, observed });
            true
        },
        PeerSendOutcome::TimedOut => {
            timed_out.push(attempt);
            true
        },
        _ => {
            if attempt.kind == SendAttemptKind::RecoveryProbe {
                timed_out.push(attempt);
            }
            false
        },
    };
    assert(sent@ =~= match outcome {
        PeerSendOutcome::Sent { observed } => seq![(PeerSendCompletion { attempt, observed })],
        _ => Seq::<PeerSendCompletion>::empty(),
    });
    assert(timed_out@ =~= if outcome is TimedOut || ((outcome is Failed || outcome is Panicked) && attempt.kind
        == SendAttemptKind::RecoveryProbe) {
        seq![attempt]
    } else {
        Seq::<PeerSendAttempt>::empty()
    });
    (sent, timed_out, ok)
}

/// How long a send to a peer may take, and how long it may wait for its turn.
pub fn send_budget(tracker: &PerPeerRttTracker, peer: &PeerId) -> (r: Duration)
    requires
        tracker.wf(),
    ensures
        tracker.samples_of(*peer).len() == 0 ==> r == min_span(
            millis(PER_PEER_REPUBLISH_TIMEOUT_MS),
            millis(PER_PEER_TIMEOUT_CEILING_MS),
        ),
        tracker.samples_of(*peer).len() > 0 ==> r.nanos == timeout_for(p95_of(tracker.samples_of(*peer))),
{
    tracker.adaptive_timeout(peer, Duration::from_millis(PER_PEER_REPUBLISH_TIMEOUT_MS))
}

/// A signed list reaches its handler as it was sent, whoever sent it.
pub proof fn signed_lists_reach_their_handler(
    message: GossipMessage,
    content: PayloadContent,
    routed: Routed,
    ids: Seq<MessageId>,
)
    requires
        message.payload is Some,
        content_of(message.header.kind, message.payload, content),
        routed_as(message.header.kind, true, content, routed),
    ensures
        message.header.kind == MessageKind::IHave && ids_in(message.payload->0@) == Some(ids) ==> routed.heard
            && routed.route is IHave && routed.route->IHave_0@ == ids,
        message.header.kind == MessageKind::IWant && ids_in(message.payload->0@) == Some(ids) ==> routed.heard
            && routed.route is IWant && routed.route->IWant_0@ == ids,
        message.header.kind == MessageKind::AntiEntropy && tagged_ids_in(message.payload->0@) == Some((0u32, ids)) ==> {
            &&& routed.heard && routed.route is AntiEntropy
            &&& routed.route->AntiEntropy_0 is Digest && routed.route->AntiEntropy_0->msg_ids@ == ids
        },
        message.header.kind == MessageKind::AntiEntropy && tagged_ids_in(message.payload->0@) == Some((1u32, ids)) ==> {
            &&& routed.heard && routed.route is AntiEntropy
            &&& routed.route->AntiEntropy_0 is Response && routed.route->AntiEntropy_0->missing_ids@ == ids
        },
        (message.header.kind == MessageKind::IHave || message.header.kind == MessageKind::IWant) && ids_in(
            message.payload->0@,
        ) is None ==> routed.heard && routed.route == Route::Rejected(InboundError::BadPayload),
        message.header.kind == MessageKind::AntiEntropy && tagged_ids_in(message.payload->0@) is None ==> routed.heard
            && routed.route == Route::Rejected(InboundError::BadPayload),
{
}

/// Where a message goes by its kind: a full one to its own handler in any case; one that is not for
/// this layer nowhere, though its sender counts as heard of where the signature is good; and a
/// control message without a payload or a good signature is refused.
pub proof fn kinds_go_their_own_ways(kind: MessageKind, signature_valid: bool, content: PayloadContent, routed: Routed)
    requires
        routed_as(kind, signature_valid, content, routed),
    ensures
        kind == MessageKind::Eager <==> routed.route is Eager,
        kind == MessageKind::Ping || kind == MessageKind::Ack || kind == MessageKind::Find || kind
            == MessageKind::Presence || kind == MessageKind::Shuffle <==> routed.route is Ignored,
        routed.route is Ignored ==> routed.heard == signature_valid,
        routed.route is IHave ==> kind == MessageKind::IHave && signature_valid,
        routed.route is IWant ==> kind == MessageKind::IWant && signature_valid,
        routed.route is AntiEntropy ==> kind == MessageKind::AntiEntropy && signature_valid,
        (kind == MessageKind::IHave || kind == MessageKind::IWant || kind == MessageKind::AntiEntropy)
            && !signature_valid ==> routed.route == Route::Rejected(InboundError::InvalidSignature) && !routed.heard,
        (kind == MessageKind::IHave || kind == MessageKind::IWant || kind == MessageKind::AntiEntropy)
            && signature_valid && content is Missing ==> routed.route == Route::Rejected(InboundError::MissingPayload)
            && routed.heard,
{
}

/// Admission is asked for every peer that is not known to be disconnected, in their order, with what
/// is known of its health and whether the topic suppresses it.
pub proof fn admission_is_asked_for_every_connected_peer(
    ctx: SendContext,
    state: Option<&TopicState>,
    peers: Seq<PeerId>,
    now: Instant,
) -> (at: Seq<int>)
    ensures
        ({
            let r = requests_for(ctx, state, peers, now);
            &&& at.len() == r.len()
            &&& forall|j: int|
                0 <= j < at.len() ==> 0 <= #[trigger] at[j] < peers.len() && r[j].peer == peers[at[j]] && (
                ctx.connected is Some ==> ctx.connected->0@.contains(peers[at[j]]))
            &&& forall|i: int, j: int| 0 <= i < j < at.len() ==> #[trigger] at[i] < #[trigger] at[j]
            &&& forall|i: int|
                0 <= i < peers.len() && (ctx.connected is Some ==> ctx.connected->0@.contains(peers[i]))
                    ==> #[trigger] at.contains(i)
            &&& forall|j: int|
                0 <= j < r.len() ==> {
                    let p = (#[trigger] r[j]).peer;
                    &&& r[j].health is Some <==> ctx.health@.dom().contains(p)
                    &&& r[j].health is Some ==> r[j].health->0 == ctx.health@[p]
                    &&& r[j].cooled <==> state is Some && state->0.peer_cooling@.dom().contains(p) && (
                    state->0.peer_cooling@[p].suppressed_until is Some
                        || state->0.peer_cooling@[p].recovery_probe_in_flight)
                }
        }),
    decreases peers.len(),
{
    if peers.len() == 0 {
        Seq::empty()
    } else {
        let rest = peers.drop_last();
        let before = admission_is_asked_for_every_connected_peer(ctx, state, rest, now);
        let last = peers.len() - 1;
        let all = requests_for(ctx, state, peers, now);
        let prior = requests_for(ctx, state, rest, now);
        assert forall|i: int| 0 <= i < last implies #[trigger] peers[i] == rest[i] by {}
        assert forall|j: int| 0 <= j < prior.len() implies #[trigger] all[j] == prior[j] by {}
        assert forall|j: int| 0 <= j < before.len() implies 0 <= #[trigger] before[j] < last && all[j].peer
            == peers[before[j]] && (ctx.connected is Some ==> ctx.connected->0@.contains(peers[before[j]])) by {
            assert(rest[before[j]] == peers[before[j]]);
        }
        assert forall|j: int| 0 <= j < all.len() implies {
            let p = (#[trigger] all[j]).peer;
            &&& all[j].health is Some <==> ctx.health@.dom().contains(p)
            &&& all[j].health is Some ==> all[j].health->0 == ctx.health@[p]
            &&& all[j].cooled <==> state is Some && state->0.peer_cooling@.dom().contains(p) && (
            state->0.peer_cooling@[p].suppressed_until is Some || state->0.peer_cooling@[p].recovery_probe_in_flight)
        } by {
            if j < prior.len() {
                assert(all[j] == prior[j]);
            }
        }
        if ctx.disconnected(peers.last()) {
            assert forall|i: int|
                0 <= i < peers.len() && (ctx.connected is Some ==> ctx.connected->0@.contains(
                    peers[i],
                )) implies #[trigger] before.contains(i) by {
                assert(i < last);
                assert(rest[i] == peers[i]);
            }
            before
        } else {
            let at = before.push(last);
            assert forall|i: int|
                0 <= i < peers.len() && (ctx.connected is Some ==> ctx.connected->0@.contains(
                    peers[i],
                )) implies #[trigger] at.contains(i) by {
                if i < last {
                    assert(rest[i] == peers[i]);
                    assert(before.contains(i));
                    let j = before.index_of(i);
                    assert(at[j] == i);
                } else {
                    assert(at[before.len() as int] == i);
                }
            }
            at
        }
    }
}

/// Exactly those are admitted whose admission was granted, in their order.
pub proof fn granted_admissions_are_used(requests: Seq<AdmissionRequest>, decisions: Seq<bool>) -> (at: Seq<int>)
    requires
        decisions.len() == requests.len(),
    ensures
        ({
            let r = admitted_of(requests, decisions);
            &&& at.len() == r.len()
            &&& forall|j: int|
                0 <= j < at.len() ==> 0 <= #[trigger] at[j] < requests.len() && decisions[at[j]] && r[j]
                    == requests[at[j]].peer
            &&& forall|i: int, j: int| 0 <= i < j < at.len() ==> #[trigger] at[i] < #[trigger] at[j]
            &&& forall|i: int| 0 <= i < requests.len() && #[trigger] decisions[i] ==> at.contains(i)
        }),
    decreases requests.len(),
{
    if requests.len() == 0 {
        Seq::empty()
    } else {
        let before = lemma_granted(requests, decisions, requests.len() as int);
        assert(requests.take(requests.len() as int) =~= requests);
        before
    }
}

proof fn lemma_granted(requests: Seq<AdmissionRequest>, decisions: Seq<bool>, n: int) -> (at: Seq<int>)
    requires
        decisions.len() == requests.len(),
        0 <= n <= requests.len(),
    ensures
        ({
            let r = admitted_of(requests.take(n), decisions);
            &&& at.len() == r.len()
            &&& forall|j: int|
                0 <= j < at.len() ==> 0 <= #[trigger] at[j] < n && decisions[at[j]] && r[j] == requests[at[j]].peer
            &&& forall|i: int, j: int| 0 <= i < j < at.len() ==> #[trigger] at[i] < #[trigger] at[j]
            &&& forall|i: int| 0 <= i < n && #[trigger] decisions[i] ==> at.contains(i)
        }),
    decreases n,
{
    if n == 0 {
        Seq::empty()
    } else {
        let before = lemma_granted(requests, decisions, n - 1);
        let here = requests.take(n);
        assert(here.drop_last() =~= requests.take(n - 1));
        assert(here.last() == requests[n - 1]);
        if decisions[n - 1] {
            let at = before.push(n - 1);
            assert forall|i: int| 0 <= i < n && #[trigger] decisions[i] implies at.contains(i) by {
                if i < n - 1 {
                    let j = before.index_of(i);
                    assert(at[j] == i);
                } else {
                    assert(at[before.len() as int] == i);
                }
            }
            at
        } else {
            before
        }
    }
}

/// What cannot be read counts, and nothing else does.
pub proof fn only_unreadable_payloads_count(route: Route)
    ensures
        is_unreadable(route) <==> route == Route::Rejected(InboundError::MissingPayload) || route == Route::Rejected(
            InboundError::BadPayload,
        ),
        !is_unreadable(Route::Rejected(InboundError::InvalidSignature)),
        route is Eager || route is IHave || route is IWant || route is AntiEntropy || route is Ignored
            ==> !is_unreadable(route),
{
}

} // verus!
