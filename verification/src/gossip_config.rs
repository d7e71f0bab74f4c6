use vstd::prelude::*;
use vstd::string::*;

use sha2::Digest;

verus! {

pub const SECONDS_PER_SLOT: u64 = 12;

pub const SLOTS_PER_EPOCH: u64 = 32;

pub const MAX_PAYLOAD_SIZE: u64 = 10485760;

pub const MESSAGE_DOMAIN_VALID_SNAPPY: [u8; 4] = [0x01, 0x00, 0x00, 0x00];

pub const MESSAGE_DOMAIN_INVALID_SNAPPY: [u8; 4] = [0x00, 0x00, 0x00, 0x00];

/// The number of bytes of a message id.
pub const MESSAGE_ID_LEN: usize = 20;

/// The largest size that snappy can compress `n` bytes into: `32 + n + n / 6`.
pub open spec fn spec_max_compressed_len(n: int) -> int {
    32 + n + n / 6
}

/// The largest gossip or request message: room for a compressed payload of the
/// largest size plus 1024 bytes of framing, and never less than 1 MiB.
pub open spec fn spec_max_message_size() -> int {
    let framed = spec_max_compressed_len(MAX_PAYLOAD_SIZE as int) + 1024;
    if framed >= 1024 * 1024 {
        framed
    } else {
        (1024 * 1024) as int
    }
}

/// The worst-case snappy output size for an input of `n` bytes.
pub fn max_compressed_len(n: u64) -> (r: u64)
    requires
        spec_max_compressed_len(n as int) <= u64::MAX,
    ensures
        r == spec_max_compressed_len(n as int),
{
    32 + n + n / 6
}

/// The largest size of a message on the wire.
pub fn max_message_size() -> (r: u64)
    ensures
        r == spec_max_message_size(),
{
    let framed = max_compressed_len(MAX_PAYLOAD_SIZE) + 1024;
    if framed >= 1024 * 1024 {
        framed
    } else {
        1024 * 1024
    }
}

/// The SHA-256 digest of `data`, named: its definition is the hash function's own.
pub uninterp spec fn sha256_digest(data: Seq<u8>) -> Seq<u8>;

/// `sha2::Sha256::digest`: the 32-byte SHA-256 digest of `data`.
#[verifier::external_body]
fn sha256(data: &[u8]) -> (r: Vec<u8>)
    ensures
        r@ == sha256_digest(data@),
        r@.len() == 32,
{
    sha2::Sha256::digest(data).as_slice().to_vec()
}

/// The `k` little-endian bytes of `n` (its value modulo `256^k`).
pub open spec fn le_bytes(n: nat, k: nat) -> Seq<u8>
    decreases k,
{
    if k == 0 {
        Seq::empty()
    } else {
        seq![(n % 256) as u8] + le_bytes(n / 256, (k - 1) as nat)
    }
}

/// What the message id hashes: the valid-snappy domain, the topic's length as
/// 8 little-endian bytes, the topic's bytes, then the message data.
pub open spec fn message_id_preimage(topic: Seq<u8>, data: Seq<u8>) -> Seq<u8> {
    MESSAGE_DOMAIN_VALID_SNAPPY@ + le_bytes(topic.len(), 8) + topic + data
}

/// The gossip message id of a message with `data` on `topic`: the first 20
/// bytes of the SHA-256 digest of its preimage.
pub open spec fn spec_message_id(topic: Seq<u8>, data: Seq<u8>) -> Seq<u8> {
    sha256_digest(message_id_preimage(topic, data)).take(MESSAGE_ID_LEN as int)
}

/// Appends the 8 little-endian bytes of `n` to `out`.
pub(crate) fn push_le_u64(out: &mut Vec<u8>, n: u64)
    ensures
        final(out)@ == old(out)@ + le_bytes(n as nat, 8),
{
    let ghost start = out@;
    let mut v: u64 = n;
    let mut i: usize = 0;
    while i < 8
        invariant
            i <= 8,
            out@ + le_bytes(v as nat, (8 - i) as nat) == start + le_bytes(n as nat, 8),
        decreases 8 - i,
    {
        proof {
            let rest = le_bytes(v as nat, (8 - i) as nat);
            assert(rest == seq![(v % 256) as u8] + le_bytes(v as nat / 256, (8 - i - 1) as nat));
        }
        let byte: u8 = (v % 256) as u8;
        let ghost before = out@;
        out.push(byte);
        proof {
            assert(out@ == before + seq![byte]);
            assert(before + seq![byte] + le_bytes((v / 256) as nat, (8 - i - 1) as nat)
                =~= before + (seq![byte] + le_bytes((v / 256) as nat, (8 - i - 1) as nat)));
        }
        v = v / 256;
        i = i + 1;
    }
    assert(le_bytes(v as nat, 0) =~= Seq::<u8>::empty());
    assert(out@ + Seq::<u8>::empty() =~= out@);
}

/// Appends the bytes of `src` to `out`.
pub(crate) fn extend_bytes(out: &mut Vec<u8>, src: &[u8])
    ensures
        final(out)@ == old(out)@ + src@,
{
    let ghost start = out@;
    let mut i: usize = 0;
    while i < src.len()
        invariant
            i <= src.len(),
            out@ == start + src@.take(i as int),
        decreases src.len() - i,
    {
        out.push(src[i]);
        assert(src@.take(i as int + 1) =~= src@.take(i as int).push(src@[i as int]));
        i = i + 1;
    }
    assert(src@.take(src.len() as int) =~= src@);
}

/// The bytes that the message id of `data` on `topic` hashes.
pub fn message_id_input(topic: &str, data: &[u8]) -> (r: Vec<u8>)
    ensures
        r@ == message_id_preimage(topic.spec_bytes(), data@),
{
    let topic_bytes = topic.as_bytes();
    let mut input: Vec<u8> = Vec::new();
    extend_bytes(&mut input, &MESSAGE_DOMAIN_VALID_SNAPPY);
    push_le_u64(&mut input, topic_bytes.len() as u64);
    extend_bytes(&mut input, topic_bytes);
    extend_bytes(&mut input, data);
    input
}

/// The gossip message id of a message with `data` on `topic`.
pub fn message_id(topic: &str, data: &[u8]) -> (r: Vec<u8>)
    ensures
        r@ == spec_message_id(topic.spec_bytes(), data@),
        r@.len() == MESSAGE_ID_LEN,
{
    let input = message_id_input(topic, data);
    let digest = sha256(input.as_slice());
    let mut id: Vec<u8> = Vec::new();
    let mut i: usize = 0;
    while i < MESSAGE_ID_LEN
        invariant
            i <= MESSAGE_ID_LEN,
            digest@.len() == 32,
            id@ == digest@.take(i as int),
        decreases MESSAGE_ID_LEN - i,
    {
        id.push(digest[i]);
        assert(digest@.take(i as int + 1) =~= digest@.take(i as int).push(digest@[i as int]));
        i = i + 1;
    }
    id
}

/// The message id hashes the bytes 1, 0, 0, 0, then the topic's length as a little-endian
/// 8-byte number, then the topic, then the data: the layout reads back into the length,
/// the topic and the data.
pub proof fn message_id_preimage_layout(topic: Seq<u8>, data: Seq<u8>)
    requires
        topic.len() <= u64::MAX,
    ensures
        ({
            let p = message_id_preimage(topic, data);
            &&& p.len() == 12 + topic.len() + data.len()
            &&& p.subrange(0, 4) == seq![1u8, 0u8, 0u8, 0u8]
            &&& crate::eth2::le_value(p.subrange(4, 12)) == topic.len()
            &&& p.subrange(12, 12 + topic.len() as int) == topic
            &&& p.subrange(12 + topic.len() as int, p.len() as int) == data
        }),
{
    assert(crate::eth2::pow256(8) == 0x1_0000_0000_0000_0000) by {
        reveal_with_fuel(crate::eth2::pow256, 9);
    }
    crate::eth2::lemma_le_roundtrip(topic.len(), 8);
    let p = message_id_preimage(topic, data);
    let lb = le_bytes(topic.len(), 8);
    assert(MESSAGE_DOMAIN_VALID_SNAPPY@ =~= seq![1u8, 0u8, 0u8, 0u8]);
    assert(p.subrange(0, 4) =~= seq![1u8, 0u8, 0u8, 0u8]);
    assert(p.subrange(4, 12) =~= lb);
    assert(p.subrange(12, 12 + topic.len() as int) =~= topic);
    assert(p.subrange(12 + topic.len() as int, p.len() as int) =~= data);
}

/// Snappy never needs fewer bytes than it is given, nor more than `32 + n + n / 6`; the
/// largest message is that bound for the 10 MiB payload limit plus 1024 bytes of
/// framing, 12234442 bytes.
pub proof fn message_size_bounds(n: nat)
    ensures
        n <= spec_max_compressed_len(n as int) <= 32 + n + n / 6,
        spec_max_message_size() == 12234442,
{
}

} // verus!
