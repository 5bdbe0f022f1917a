//! What is derived from content hashes: message identifiers, delays and the choice of a peer.

use vstd::prelude::*;

use crate::digest::{blake3_digest, content_hash, digest_of};
use crate::ids::{MessageId, PeerId, TopicId};
use crate::time::{Duration, NANOS_PER_MILLI};

verus! {

/// The `n` lowest bytes of a number, lowest first.
pub open spec fn low_bytes(x: nat, n: nat) -> Seq<u8>
    decreases n,
{
    if n == 0 { Seq::empty() } else { seq![(x % 256) as u8] + low_bytes(x / 256, (n - 1) as nat) }
}

/// The number whose bytes these are, lowest first.
pub open spec fn from_low_bytes(bytes: Seq<u8>) -> nat
    decreases bytes.len(),
{
    if bytes.len() == 0 { 0 } else { bytes[0] as nat + 256 * from_low_bytes(bytes.skip(1)) }
}

/// The first eight bytes of a hash as a number, lowest first.
pub open spec fn first_u64(bytes: [u8; 32]) -> nat {
    from_low_bytes(bytes@.take(8))
}

/// A number has the bytes that it is made of.
pub proof fn low_bytes_round_trip(x: nat, n: nat)
    requires
        x < vstd::arithmetic::power::pow(256, n),
    ensures
        from_low_bytes(low_bytes(x, n)) == x,
    decreases n,
{
    if n == 0 {
        vstd::arithmetic::power::lemma_pow0(256);
    } else {
        let rest = low_bytes(x / 256, (n - 1) as nat);
        let all = low_bytes(x, n);
        assert(all.skip(1) =~= rest);
        assert(all[0] == (x % 256) as u8);
        assert(vstd::arithmetic::power::pow(256, n) == 256 * vstd::arithmetic::power::pow(256, (n - 1) as nat)) by {
            reveal(vstd::arithmetic::power::pow);
        }
        assert(x / 256 < vstd::arithmetic::power::pow(256, (n - 1) as nat)) by (nonlinear_arith)
            requires
                x < 256 * vstd::arithmetic::power::pow(256, (n - 1) as nat),
        ;
        low_bytes_round_trip(x / 256, (n - 1) as nat);
    }
}

/// The eight bytes of a number, lowest first.
pub fn u64_low_bytes(x: u64) -> (r: Vec<u8>)
    ensures
        r@ == low_bytes(x as nat, 8),
{
    let mut r: Vec<u8> = Vec::new();
    let mut rest: u64 = x;
    let mut i: usize = 0;
    while i < 8
        invariant
            i <= 8,
            low_bytes(x as nat, 8) == r@ + low_bytes(rest as nat, (8 - i) as nat),
        decreases 8 - i,
    {
        let byte: u8 = (rest % 256) as u8;
        let ghost before = r@;
        r.push(byte);
        proof {
            let tail = low_bytes((rest / 256) as nat, (8 - i - 1) as nat);
            assert(low_bytes(rest as nat, (8 - i) as nat) == seq![byte] + tail);
            assert(before + (seq![byte] + tail) =~= r@ + tail);
        }
        rest = rest / 256;
        i = i + 1;
    }
    assert(r@ + low_bytes(rest as nat, 0) =~= r@);
    r
}

/// The first eight bytes of a hash as a number, lowest first.
pub fn fold_u64(bytes: &[u8; 32]) -> (r: u64)
    ensures
        r == first_u64(*bytes),
{
    let b = bytes;
    let r: u64 = (b[0] as u64) + 0x100 * (b[1] as u64) + 0x1_0000 * (b[2] as u64) + 0x100_0000 * (b[3] as u64)
        + 0x1_0000_0000 * (b[4] as u64) + 0x100_0000_0000 * (b[5] as u64) + 0x1_0000_0000_0000 * (b[6] as u64)
        + 0x100_0000_0000_0000 * (b[7] as u64);
    proof {
        let s = bytes@.take(8);
        reveal_with_fuel(from_low_bytes, 9);
        assert(s.len() == 8);
        assert(s.skip(1).skip(1) =~= s.skip(2));
        assert(s.skip(2).skip(1) =~= s.skip(3));
        assert(s.skip(3).skip(1) =~= s.skip(4));
        assert(s.skip(4).skip(1) =~= s.skip(5));
        assert(s.skip(5).skip(1) =~= s.skip(6));
        assert(s.skip(6).skip(1) =~= s.skip(7));
        assert(s.skip(7).skip(1) =~= s.skip(8));
    }
    r
}

/// The most milliseconds of a delay below `max`; one where they do not fit.
pub open spec fn jitter_limit_ms(max: Duration) -> nat {
    let ms = (max.nanos / NANOS_PER_MILLI) as nat;
    if 0 < ms <= u64::MAX { ms } else { 1 }
}

/// The delay that a hash gives, below `max`.
pub fn jitter_from_digest(digest: &[u8; 32], max: Duration) -> (r: Duration)
    ensures
        max.nanos == 0 ==> r.nanos == 0,
        max.nanos > 0 ==> r.nanos == (first_u64(*digest) % jitter_limit_ms(max)) * NANOS_PER_MILLI,
{
    if max.is_zero() {
        return Duration::zero();
    }
    let ms: u128 = max.as_millis();
    let limit: u64 = if 0 < ms && ms <= u64::MAX as u128 { ms as u64 } else { 1 };
    let raw: u64 = fold_u64(digest);
    Duration::from_millis(raw % limit)
}

/// One sequence of bytes after another.
fn joined(a: &[u8], b: &[u8]) -> (r: Vec<u8>)
    ensures
        r@ == a@ + b@,
{
    let mut r: Vec<u8> = Vec::new();
    let mut i: usize = 0;
    while i < a.len()
        invariant
            i <= a@.len(),
            r@ == a@.take(i as int),
        decreases a@.len() - i,
    {
        r.push(a[i]);
        assert(r@ =~= a@.take(i + 1));
        i = i + 1;
    }
    assert(r@ =~= a@ + b@.take(0));
    let mut j: usize = 0;
    while j < b.len()
        invariant
            j <= b@.len(),
            r@ == a@ + b@.take(j as int),
        decreases b@.len() - j,
    {
        r.push(b[j]);
        assert(r@ =~= a@ + b@.take(j + 1));
        j = j + 1;
    }
    assert(b@.take(b@.len() as int) =~= b@);
    r
}

/// A delay that differs from node to node and is the same each time, below `max`.
pub fn deterministic_jitter(peer_id: PeerId, salt: &[u8], max: Duration) -> (r: Duration)
    ensures
        max.nanos == 0 ==> r.nanos == 0,
        max.nanos > 0 ==> r.nanos == (first_u64(digest_of(peer_id.bytes@ + salt@)) % jitter_limit_ms(max))
            * NANOS_PER_MILLI,
{
    let input = joined(peer_id.bytes.as_slice(), salt);
    let digest = content_hash(input.as_slice());
    jitter_from_digest(&digest, max)
}

/// A delay is below its bound, where that is a whole millisecond at least.
pub proof fn jitter_is_below_its_bound(raw: nat, max: Duration)
    requires
        max.nanos >= NANOS_PER_MILLI,
    ensures
        (raw % jitter_limit_ms(max)) * NANOS_PER_MILLI < max.nanos,
{
    let limit = jitter_limit_ms(max);
    let ms = (max.nanos / NANOS_PER_MILLI) as nat;
    assert(raw % limit < limit) by (nonlinear_arith)
        requires
            limit > 0,
    ;
    assert(limit <= ms);
    assert(ms * NANOS_PER_MILLI <= max.nanos);
}

/// The bytes from which a message's identifier is made.
pub open spec fn msg_id_input(topic: TopicId, epoch: u64, signer: PeerId, payload_hash: Seq<u8>) -> Seq<u8> {
    topic.bytes@ + low_bytes(epoch as nat, 8) + signer.bytes@ + payload_hash
}

/// The identifier of a message: the hash of its topic, its time, its sender and the hash of its
/// payload.
pub fn calculate_msg_id(topic: &TopicId, epoch: u64, signer: &PeerId, payload_hash: &[u8; 32]) -> (r: MessageId)
    ensures
        r == digest_of(msg_id_input(*topic, epoch, *signer, payload_hash@)),
{
    let time = u64_low_bytes(epoch);
    let a = joined(topic.bytes.as_slice(), time.as_slice());
    let b = joined(a.as_slice(), signer.bytes.as_slice());
    let c = joined(b.as_slice(), payload_hash.as_slice());
    content_hash(c.as_slice())
}

/// The identifier of a message with a payload.
pub fn msg_id_for_payload(topic: &TopicId, epoch: u64, signer: &PeerId, payload: &[u8]) -> (r: MessageId)
    ensures
        r == digest_of(msg_id_input(*topic, epoch, *signer, blake3_digest(payload@))),
{
    let hash = content_hash(payload);
    calculate_msg_id(topic, epoch, signer, &hash)
}

/// The hash by which a topic's partner in a reconciliation is chosen at some second.
pub fn partner_hash(topic: &TopicId, unix_secs: u64) -> (r: [u8; 32])
    ensures
        r == digest_of(topic.bytes@ + low_bytes(unix_secs as nat, 8)),
{
    let time = u64_low_bytes(unix_secs);
    let input = joined(topic.bytes.as_slice(), time.as_slice());
    content_hash(input.as_slice())
}

/// A number is a power of two.
pub open spec fn is_power_of_two(n: nat) -> bool {
    exists|k: nat| vstd::arithmetic::power2::pow2(k) == n
}

/// How many shards there are for a wanted number: the next power of two, at least two.
pub fn shard_count_for(wanted: usize) -> (r: usize)
    requires
        wanted <= usize::MAX / 2 + 1,
    ensures
        is_power_of_two(r as nat),
        r >= 2,
        r >= wanted,
        r == 2 || r / 2 < wanted,
{
    let mut n: usize = 2;
    proof {
        vstd::arithmetic::power2::lemma2_to64();
        assert(vstd::arithmetic::power2::pow2(1) == 2);
    }
    while n < wanted
        invariant
            wanted <= usize::MAX / 2 + 1,
            is_power_of_two(n as nat),
            n >= 2,
            n == 2 || n / 2 < wanted,
        decreases (if n < wanted { wanted - n } else { 0 }),
    {
        proof {
            let k = choose|k: nat| vstd::arithmetic::power2::pow2(k) == n as nat;
            vstd::arithmetic::power2::lemma_pow2_unfold(k + 1);
            assert(vstd::arithmetic::power2::pow2(k + 1) == 2 * n);
        }
        assert(n <= usize::MAX / 2);
        n = n * 2;
    }
    n
}

/// The shard of a topic among `count`.
pub fn shard_index(topic: &TopicId, count: usize) -> (r: usize)
    requires
        count > 0,
    ensures
        r == first_u64(topic.bytes) % (count as nat),
        r < count,
{
    let fold: u64 = fold_u64(&topic.bytes);
    (fold % (count as u64)) as usize
}

/// The characters of a half byte.
pub open spec fn hex_digit(n: u8) -> char {
    if n == 0 { '0' }
    else if n == 1 { '1' }
    else if n == 2 { '2' }
    else if n == 3 { '3' }
    else if n == 4 { '4' }
    else if n == 5 { '5' }
    else if n == 6 { '6' }
    else if n == 7 { '7' }
    else if n == 8 { '8' }
    else if n == 9 { '9' }
    else if n == 10 { 'a' }
    else if n == 11 { 'b' }
    else if n == 12 { 'c' }
    else if n == 13 { 'd' }
    else if n == 14 { 'e' }
    else { 'f' }
}

fn hex_char(n: u8) -> (r: char)
    requires
        n < 16,
    ensures
        r == hex_digit(n),
{
    match n {
        0 => '0',
        1 => '1',
        2 => '2',
        3 => '3',
        4 => '4',
        5 => '5',
        6 => '6',
        7 => '7',
        8 => '8',
        9 => '9',
        10 => 'a',
        11 => 'b',
        12 => 'c',
        13 => 'd',
        14 => 'e',
        _ => 'f',
    }
}

/// `String::push`: the character is appended to the end of the string.
pub assume_specification[ String::push ](s: &mut String, c: char)
    ensures
        final(s)@ == old(s)@.push(c),
;

/// The first eight bytes of a message's identifier in hexadecimal characters.
pub fn msg_id_hex8(msg_id: &MessageId) -> (r: String)
    ensures
        r@.len() == 16,
        forall|i: int|
            0 <= i < 8 ==> r@[2 * i] == hex_digit((#[trigger] msg_id[i] / 16) as u8) && r@[2 * i + 1] == hex_digit(
                (msg_id[i] % 16) as u8,
            ),
{
    let mut r: String = String::new();
    let mut i: usize = 0;
    while i < 8
        invariant
            i <= 8,
            r@.len() == 2 * i,
            forall|j: int|
                0 <= j < i ==> r@[2 * j] == hex_digit((#[trigger] msg_id[j] / 16) as u8) && r@[2 * j + 1] == hex_digit(
                    (msg_id[j] % 16) as u8,
                ),
        decreases 8 - i,
    {
        r.push(hex_char(msg_id[i] / 16));
        r.push(hex_char(msg_id[i] % 16));
        i = i + 1;
    }
    r
}

/// How many zero bytes a payload ends with.
pub open spec fn zero_tail(payload: Seq<u8>) -> nat
    decreases payload.len(),
{
    if payload.len() == 0 || payload.last() != 0 { 0 } else { 1 + zero_tail(payload.drop_last()) }
}

/// How many zero bytes a payload ends with.
pub fn payload_zero_tail(payload: &[u8]) -> (r: usize)
    ensures
        r == zero_tail(payload@),
{
    let mut n: usize = payload.len();
    assert(payload@.take(payload@.len() as int) =~= payload@);
    while n > 0 && payload[n - 1] == 0
        invariant
            n <= payload@.len(),
            zero_tail(payload@) == payload@.len() - n + zero_tail(payload@.take(n as int)),
        decreases n,
    {
        proof {
            let here = payload@.take(n as int);
            assert(here.drop_last() =~= payload@.take(n - 1));
            assert(here.last() == payload@[n - 1]);
        }
        n = n - 1;
    }
    proof {
        if n > 0 {
            assert(payload@.take(n as int).last() == payload@[n - 1]);
        }
    }
    payload.len() - n
}

/// The bytes of a number are those that it was read from.
pub proof fn read_numbers_have_their_bytes(bytes: Seq<u8>)
    ensures
        low_bytes(from_low_bytes(bytes), bytes.len()) == bytes,
        from_low_bytes(bytes) < vstd::arithmetic::power::pow(256, bytes.len()),
    decreases bytes.len(),
{
    if bytes.len() == 0 {
        assert(low_bytes(from_low_bytes(bytes), 0) =~= bytes);
        vstd::arithmetic::power::lemma_pow0(256);
    } else {
        let rest = bytes.skip(1);
        read_numbers_have_their_bytes(rest);
        let x = from_low_bytes(bytes);
        let y = from_low_bytes(rest);
        assert(x % 256 == bytes[0] as nat && x / 256 == y) by (nonlinear_arith)
            requires
                x == bytes[0] as nat + 256 * y,
                bytes[0] < 256,
        ;
        assert(low_bytes(x, bytes.len()) =~= bytes);
        let p = vstd::arithmetic::power::pow(256, rest.len());
        assert(vstd::arithmetic::power::pow(256, bytes.len()) == 256 * p) by {
            reveal(vstd::arithmetic::power::pow);
        }
    }
}

/// Messages that differ in their topic, their time, their sender or the hash of their payload have
/// their identifier from different bytes.
pub proof fn identifiers_are_made_of_all_parts(
    topic: TopicId,
    epoch: u64,
    signer: PeerId,
    hash: Seq<u8>,
    other_topic: TopicId,
    other_epoch: u64,
    other_signer: PeerId,
    other_hash: Seq<u8>,
)
    requires
        hash.len() == 32 && other_hash.len() == 32,
        msg_id_input(topic, epoch, signer, hash) == msg_id_input(other_topic, other_epoch, other_signer, other_hash),
    ensures
        topic.bytes@ == other_topic.bytes@,
        epoch == other_epoch,
        signer.bytes@ == other_signer.bytes@,
        hash == other_hash,
{
    lemma_low_bytes_len(epoch as nat, 8);
    lemma_low_bytes_len(other_epoch as nat, 8);
    let a = msg_id_input(topic, epoch, signer, hash);
    let b = msg_id_input(other_topic, other_epoch, other_signer, other_hash);
    assert(topic.bytes@ =~= a.subrange(0, 32));
    assert(other_topic.bytes@ =~= b.subrange(0, 32));
    assert(low_bytes(epoch as nat, 8) =~= a.subrange(32, 40));
    assert(low_bytes(other_epoch as nat, 8) =~= b.subrange(32, 40));
    assert(signer.bytes@ =~= a.subrange(40, 72));
    assert(other_signer.bytes@ =~= b.subrange(40, 72));
    assert(hash =~= a.subrange(72, 104));
    assert(other_hash =~= b.subrange(72, 104));
    assert(vstd::arithmetic::power::pow(256, 8) == 0x1_0000_0000_0000_0000) by {
        reveal_with_fuel(vstd::arithmetic::power::pow, 9);
    }
    low_bytes_round_trip(epoch as nat, 8);
    low_bytes_round_trip(other_epoch as nat, 8);
}

proof fn lemma_low_bytes_len(x: nat, n: nat)
    ensures
        low_bytes(x, n).len() == n,
    decreases n,
{
    if n > 0 {
        lemma_low_bytes_len(x / 256, (n - 1) as nat);
    }
}

/// The tail of zeros: so many bytes at the end are zero, and the one before is not.
pub proof fn zero_tails_end_before_another_byte(payload: Seq<u8>)
    ensures
        zero_tail(payload) <= payload.len(),
        forall|i: int| payload.len() - zero_tail(payload) <= i < payload.len() ==> #[trigger] payload[i] == 0,
        zero_tail(payload) < payload.len() ==> payload[payload.len() - zero_tail(payload) - 1] != 0,
    decreases payload.len(),
{
    if payload.len() > 0 && payload.last() == 0 {
        zero_tails_end_before_another_byte(payload.drop_last());
        assert forall|i: int| payload.len() - zero_tail(payload) <= i < payload.len() implies #[trigger] payload[i]
            == 0 by {
            if i < payload.len() - 1 {
                assert(payload.drop_last()[i] == payload[i]);
            }
        }
    }
}

/// A delay is spread over all whole milliseconds below its bound.
pub proof fn delays_reach_every_millisecond(max: Duration, ms: nat)
    requires
        max.nanos / NANOS_PER_MILLI <= u64::MAX,
        ms < max.nanos / NANOS_PER_MILLI,
    ensures
        ms % jitter_limit_ms(max) == ms,
        jitter_limit_ms(max) == max.nanos / NANOS_PER_MILLI,
{
    vstd::arithmetic::div_mod::lemma_small_mod(ms, jitter_limit_ms(max));
}

/// The bytes of a number, lowest first: each is what is left of it at its place.
pub proof fn bytes_stand_lowest_first(x: nat, n: nat, i: nat)
    requires
        i < n,
    ensures
        low_bytes(x, n).len() == n,
        low_bytes(x, n)[i as int] == (x as int / vstd::arithmetic::power::pow(256, i)) % 256,
    decreases n,
{
    lemma_low_bytes_len(x, n);
    if i == 0 {
        vstd::arithmetic::power::lemma_pow0(256);
    } else {
        let j = (i - 1) as nat;
        bytes_stand_lowest_first(x / 256, (n - 1) as nat, j);
        let p = vstd::arithmetic::power::pow(256, j);
        vstd::arithmetic::power::lemma_pow_positive(256, j);
        assert(vstd::arithmetic::power::pow(256, i) == 256 * p) by {
            reveal(vstd::arithmetic::power::pow);
        }
        vstd::arithmetic::div_mod::lemma_div_denominator(x as int, 256, p);
        assert(low_bytes(x, n)[i as int] == low_bytes(x / 256, (n - 1) as nat)[j as int]);
    }
}

/// The parts of a message's identifier stand one after the other: topic, time, sender and the hash
/// of the payload.
pub proof fn identifiers_have_their_parts_in_order(topic: TopicId, epoch: u64, signer: PeerId, hash: Seq<u8>)
    requires
        hash.len() == 32,
    ensures
        ({
            let input = msg_id_input(topic, epoch, signer, hash);
            &&& input.len() == 104
            &&& forall|i: int| 0 <= i < 32 ==> #[trigger] input[i] == topic.bytes[i]
            &&& forall|i: int| 32 <= i < 40 ==> #[trigger] input[i] == low_bytes(epoch as nat, 8)[i - 32]
            &&& forall|i: int| 40 <= i < 72 ==> #[trigger] input[i] == signer.bytes[i - 40]
            &&& forall|i: int| 72 <= i < 104 ==> #[trigger] input[i] == hash[i - 72]
        }),
{
    lemma_low_bytes_len(epoch as nat, 8);
}

/// The number that is read off a hash has its first eight bytes, and the others do not count.
pub proof fn hashes_are_read_by_their_first_bytes(a: [u8; 32], b: [u8; 32])
    ensures
        low_bytes(first_u64(a), 8) == a@.take(8),
        first_u64(a) == first_u64(b) <==> a@.take(8) == b@.take(8),
{
    read_numbers_have_their_bytes(a@.take(8));
    read_numbers_have_their_bytes(b@.take(8));
}

/// The digits up to nine are themselves, and those above them are the letters from `a` on.
pub proof fn digits_go_on_with_letters(n: u8)
    requires
        n < 16,
    ensures
        n < 10 ==> hex_digit(n) as int == '0' as int + n,
        n >= 10 ==> hex_digit(n) as int == 'a' as int + (n - 10),
{
}

} // verus!
