use vstd::prelude::*;

use ssz_types::typenum::{U4, U64};
use ssz_types::BitVector;

use crate::bitfield::{
    bits_to_bytes, bitvector4_bits, bitvector4_from_bytes, bitvector64_bits,
    bitvector64_from_bytes, bytes_to_bits, lemma_bits_bytes_roundtrip,
};
use crate::gossip_config::le_bytes;
use crate::rlp::{lemma_short_rlp_roundtrip, short_rlp_encoding};
use crate::subnet::sync_committee_subnets_roundtrip;
use crate::text::{decimal, push_decimal};

verus! {

/// The metadata a peer answers with: its sequence number and the attestation and sync
/// committee subnets it serves.
#[derive(Debug)]
pub struct GetMetaDataV2 {
    pub seq_number: u64,
    pub attnets: BitVector<U64>,
    pub syncnets: BitVector<U4>,
}

/// The length of the SSZ encoding of the metadata: a `u64`, eight bytes of attestation
/// bits and one byte of sync committee bits.
pub const META_DATA_SSZ_LEN: usize = 17;

/// The metadata as plain values: the sequence number and the two bitfields' bits.
pub open spec fn meta_data_view(m: GetMetaDataV2) -> (u64, Seq<bool>, Seq<bool>) {
    (m.seq_number, bitvector64_bits(m.attnets), bitvector4_bits(m.syncnets))
}

/// The number that the little-endian bytes `b` write.
pub open spec fn le_value(b: Seq<u8>) -> nat
    decreases b.len(),
{
    if b.len() == 0 {
        0
    } else {
        b[0] as nat + 256 * le_value(b.drop_first())
    }
}

/// `256` to the power `k`.
pub open spec fn pow256(k: nat) -> nat
    decreases k,
{
    if k == 0 {
        1
    } else {
        256 * pow256((k - 1) as nat)
    }
}

/// The message of the error for metadata bytes of the wrong length.
pub open spec fn wrong_length_message(len: nat) -> Seq<char> {
    "Failed to decode ssz: InvalidByteLength { len: "@ + decimal(len) + ", expected: 17 }"@
}

/// The message of the error for a sync committee byte with bits set past the fourth.
pub open spec fn excess_bits_message() -> Seq<char> {
    "Failed to decode ssz: BytesInvalid(\"BitVector failed to decode: ExcessBits\")"@
}

/// Decoding the SSZ bytes of the metadata: exactly 17 bytes, the sequence number in the
/// first eight (little-endian), the attestation bits in the next eight and the sync
/// committee bits in the last, whose upper four bits must be clear; else the message of
/// the decoding error.
pub open spec fn meta_data_decoding(bytes: Seq<u8>) -> Result<(u64, Seq<bool>, Seq<bool>), Seq<char>> {
    if bytes.len() != 17 {
        Err(wrong_length_message(bytes.len()))
    } else if bytes[16] & 0xf0u8 != 0 {
        Err(excess_bits_message())
    } else {
        Ok(
            (
                le_value(bytes.subrange(0, 8)) as u64,
                bytes_to_bits(bytes.subrange(8, 16), 64),
                bytes_to_bits(bytes.subrange(16, 17), 4),
            ),
        )
    }
}

proof fn lemma_le_value_bound(b: Seq<u8>)
    ensures
        le_value(b) < pow256(b.len()),
    decreases b.len(),
{
    if b.len() > 0 {
        lemma_le_value_bound(b.drop_first());
    }
}

proof fn lemma_pow256_monotone(a: nat, b: nat)
    requires
        a <= b,
    ensures
        pow256(a) <= pow256(b),
    decreases b,
{
    if a < b {
        lemma_pow256_monotone(a, (b - 1) as nat);
    }
}

fn copy_range(bytes: &Vec<u8>, start: usize, end: usize) -> (r: Vec<u8>)
    requires
        start <= end <= bytes.len(),
    ensures
        r@ == bytes@.subrange(start as int, end as int),
{
    let mut out: Vec<u8> = Vec::new();
    let mut i: usize = start;
    while i < end
        invariant
            start <= i <= end <= bytes.len(),
            out@ == bytes@.subrange(start as int, i as int),
        decreases end - i,
    {
        out.push(bytes[i]);
        assert(out@ =~= bytes@.subrange(start as int, i + 1));
        i = i + 1;
    }
    out
}

/// The `u64` that the first eight bytes of `bytes` write, little-endian.
fn read_u64_le(bytes: &Vec<u8>) -> (r: u64)
    requires
        bytes.len() >= 8,
    ensures
        r == le_value(bytes@.subrange(0, 8)),
{
    assert(pow256(8) == 0x1_0000_0000_0000_0000) by {
        reveal_with_fuel(pow256, 9);
    }
    let mut v: u64 = 0;
    let mut i: usize = 8;
    assert(bytes@.subrange(8, 8) =~= Seq::<u8>::empty());
    while i > 0
        invariant
            i <= 8 <= bytes.len(),
            pow256(8) == 0x1_0000_0000_0000_0000,
            v == le_value(bytes@.subrange(i as int, 8)),
        decreases i,
    {
        let ghost next = bytes@.subrange(i - 1, 8);
        assert(next.drop_first() =~= bytes@.subrange(i as int, 8));
        proof {
            lemma_le_value_bound(next);
            lemma_pow256_monotone(next.len(), 8);
        }
        v = v * 256 + bytes[i - 1] as u64;
        i = i - 1;
    }
    v
}

fn wrong_length_text(len: usize) -> (r: String)
    ensures
        r@ == wrong_length_message(len as nat),
{
    let mut s = String::from_str("Failed to decode ssz: InvalidByteLength { len: ");
    push_decimal(&mut s, len as u64);
    s.append(", expected: 17 }");
    s
}

/// Decodes the SSZ bytes of the metadata, or gives the message of the decoding error.
pub fn decode_meta_data(bytes: &Vec<u8>) -> (r: Result<GetMetaDataV2, String>)
    ensures
        match (r, meta_data_decoding(bytes@)) {
            (Ok(m), Ok(v)) => meta_data_view(m) == v,
            (Err(m), Err(e)) => m@ == e,
            _ => false,
        },
{
    if bytes.len() != META_DATA_SSZ_LEN {
        return Err(wrong_length_text(bytes.len()));
    }
    let seq_number = read_u64_le(bytes);
    let attnets = bitvector64_from_bytes(copy_range(bytes, 8, 16)).unwrap();
    let sync_byte = copy_range(bytes, 16, 17);
    assert(sync_byte@[0] == bytes@[16]);
    let syncnets = match bitvector4_from_bytes(sync_byte) {
        Some(v) => v,
        None => {
            return Err(
                String::from_str(
                    "Failed to decode ssz: BytesInvalid(\"BitVector failed to decode: ExcessBits\")",
                ),
            );
        },
    };
    Ok(GetMetaDataV2 { seq_number, attnets, syncnets })
}

proof fn lemma_le_bytes_value(n: nat, k: nat)
    requires
        n < pow256(k),
    ensures
        le_value(le_bytes(n, k)) == n,
        le_bytes(n, k).len() == k,
    decreases k,
{
    if k > 0 {
        assert(n / 256 < pow256((k - 1) as nat));
        lemma_le_bytes_value(n / 256, (k - 1) as nat);
        assert(le_bytes(n, k).drop_first() =~= le_bytes(n / 256, (k - 1) as nat));
    }
}

/// Decoding the 17 bytes laid out as the sequence number (8 little-endian bytes), the 64
/// attestation bits and the 4 sync committee bits gives those three back; and bytes of
/// any other length are refused with an error naming their length.
pub proof fn meta_data_decodes_its_layout(seq_number: u64, attnets: Seq<bool>, syncnets: Seq<bool>, other: Seq<u8>)
    requires
        attnets.len() == 64,
        syncnets.len() == 4,
    ensures
        meta_data_decoding(le_bytes(seq_number as nat, 8) + bits_to_bytes(attnets) + bits_to_bytes(
            syncnets,
        )) == Ok::<(u64, Seq<bool>, Seq<bool>), Seq<char>>((seq_number, attnets, syncnets)),
        other.len() != 17 ==> meta_data_decoding(other) == Err::<
            (u64, Seq<bool>, Seq<bool>),
            Seq<char>,
        >(wrong_length_message(other.len())),
{
    assert(pow256(8) == 0x1_0000_0000_0000_0000) by {
        reveal_with_fuel(pow256, 9);
    }
    lemma_le_bytes_value(seq_number as nat, 8);
    let lb = le_bytes(seq_number as nat, 8);
    let ab = bits_to_bytes(attnets);
    let sb = bits_to_bytes(syncnets);
    let bytes = lb + ab + sb;
    assert(ab.len() == 8);
    assert(sb.len() == 1);
    lemma_bits_bytes_roundtrip(attnets);
    lemma_bits_bytes_roundtrip(syncnets);
    sync_committee_subnets_roundtrip(syncnets);
    lemma_short_rlp_roundtrip(sb, Seq::<u8>::empty());
    assert(short_rlp_encoding(sb) + Seq::<u8>::empty() =~= short_rlp_encoding(sb));
    assert(bytes.subrange(0, 8) =~= lb);
    assert(bytes.subrange(8, 16) =~= ab);
    assert(bytes.subrange(16, 17) =~= sb);
    assert(bytes[16] == sb[0]);
}

} // verus!
