use vstd::prelude::*;

use alloy_rlp::{Decodable, Encodable};

verus! {

/// The RLP encoding of a byte string shorter than 56 bytes: a single byte below 0x80 stands
/// for itself; otherwise a header byte `0x80 + length` precedes the bytes.
pub open spec fn short_rlp_encoding(payload: Seq<u8>) -> Seq<u8> {
    if payload.len() == 1 && payload[0] < 0x80 {
        payload
    } else {
        seq![(0x80 + payload.len()) as u8] + payload
    }
}

/// Decoding an RLP byte string whose header is not that of a long string (0xb8..=0xbf):
/// `None` for an empty buffer, a list header, a buffer shorter than the header announces, or
/// a single byte below 0x80 written with a header.
pub open spec fn short_rlp_decoding(buf: Seq<u8>) -> Option<Seq<u8>> {
    if buf.len() == 0 {
        None
    } else if buf[0] < 0x80 {
        Some(seq![buf[0]])
    } else if buf[0] <= 0xb7 {
        let n = buf[0] - 0x80;
        if buf.len() < 1 + n || (n == 1 && buf[1] < 0x80) {
            None
        } else {
            Some(buf.subrange(1, 1 + n))
        }
    } else {
        None
    }
}

/// The big-endian bytes of `n` without leading zero bytes (none for zero).
pub open spec fn be_trimmed(n: nat) -> Seq<u8>
    decreases n,
{
    if n == 0 {
        Seq::empty()
    } else {
        be_trimmed(n / 256) + seq![(n % 256) as u8]
    }
}

/// The number that the big-endian bytes `b` write.
pub open spec fn be_value(b: Seq<u8>) -> nat
    decreases b.len(),
{
    if b.len() == 0 {
        0
    } else {
        be_value(b.drop_last()) * 256 + b.last() as nat
    }
}

/// The RLP encoding of a byte string: the short form below 56 bytes; otherwise a header
/// byte `0xb7 + k`, then the length in `k` big-endian bytes without leading zeros, then the
/// bytes.
pub open spec fn rlp_encoded_bytes(payload: Seq<u8>) -> Seq<u8> {
    if payload.len() < 56 {
        short_rlp_encoding(payload)
    } else {
        seq![(0xb7 + be_trimmed(payload.len()).len()) as u8] + be_trimmed(payload.len())
            + payload
    }
}

/// Decoding an RLP byte string whose header is that of a long string (`0xb7 + k` with `k`
/// from 1 to 8): `None` when the buffer is shorter than the `k` length bytes, the length
/// has a leading zero byte, does not fit a `usize`, is below 56, or is more than the bytes
/// that follow; otherwise the bytes that the length covers.
pub open spec fn long_rlp_decoding(buf: Seq<u8>) -> Option<Seq<u8>> {
    let k = buf[0] - 0xb7;
    if buf.len() < 1 + k || buf[1] == 0 {
        None
    } else {
        let n = be_value(buf.subrange(1, 1 + k));
        if n > usize::MAX || n < 56 || buf.len() < 1 + k + n {
            None
        } else {
            Some(buf.subrange(1 + k, 1 + k + n))
        }
    }
}

/// The byte string at the front of `buf`, as `alloy_rlp` decodes it.
pub open spec fn rlp_bytes_of(buf: Seq<u8>) -> Option<Seq<u8>> {
    if buf.len() == 0 || buf[0] < 0xb8 || buf[0] >= 0xc0 {
        short_rlp_decoding(buf)
    } else {
        long_rlp_decoding(buf)
    }
}

pub open spec fn opt_vec_view(v: Option<Vec<u8>>) -> Option<Seq<u8>> {
    match v {
        Some(b) => Some(b@),
        None => None,
    }
}

/// `<[u8] as alloy_rlp::Encodable>::encode`: the RLP encoding of `payload` as a byte string,
/// with the header that `alloy_rlp::Header::encode` writes.
#[verifier::external_body]
pub(crate) fn rlp_encode_bytes(payload: &[u8]) -> (r: Vec<u8>)
    ensures
        r@ == rlp_encoded_bytes(payload@),
{
    let mut out: Vec<u8> = Vec::new();
    payload.encode(&mut out);
    out
}

/// `<alloy_rlp::Bytes as Decodable>::decode`: the byte string at the front of `buf`, as
/// `alloy_rlp::Header::decode_bytes` reads it (`None` on any of its errors).
#[verifier::external_body]
pub(crate) fn rlp_decode_bytes(buf: &[u8]) -> (r: Option<Vec<u8>>)
    ensures
        opt_vec_view(r) == rlp_bytes_of(buf@),
{
    let mut rest: &[u8] = buf;
    alloy_rlp::bytes::Bytes::decode(&mut rest).ok().map(|b| b.to_vec())
}

/// The `u16` at the front of an RLP buffer, as `alloy_rlp` decodes an integer: a single
/// byte from 1 to 0x7f stands for itself, 0x80 for zero, 0x81 followed by a byte of at
/// least 0x80 for that byte, and 0x82 followed by two bytes, the first not zero, for their
/// big-endian value; anything else is refused.
pub open spec fn rlp_u16_decoding(buf: Seq<u8>) -> Option<u16> {
    if buf.len() == 0 {
        None
    } else if buf[0] < 0x80 {
        if buf[0] == 0 {
            None
        } else {
            Some(buf[0] as u16)
        }
    } else if buf[0] == 0x80 {
        Some(0)
    } else if buf[0] == 0x81 {
        if buf.len() >= 2 && buf[1] >= 0x80 {
            Some(buf[1] as u16)
        } else {
            None
        }
    } else if buf[0] == 0x82 {
        if buf.len() >= 3 && buf[1] != 0 {
            Some((buf[1] as int * 256 + buf[2] as int) as u16)
        } else {
            None
        }
    } else {
        None
    }
}

/// `<u16 as alloy_rlp::Decodable>::decode`: the integer at the front of `buf`.
#[verifier::external_body]
pub(crate) fn rlp_decode_u16(buf: &[u8]) -> (r: Option<u16>)
    ensures
        r == rlp_u16_decoding(buf@),
{
    let mut rest: &[u8] = buf;
    <u16 as Decodable>::decode(&mut rest).ok()
}

/// Decoding gives back what was encoded, whatever follows it.
pub proof fn lemma_short_rlp_roundtrip(payload: Seq<u8>, rest: Seq<u8>)
    requires
        payload.len() < 56,
    ensures
        short_rlp_decoding(short_rlp_encoding(payload) + rest) == Some(payload),
        rlp_bytes_of(short_rlp_encoding(payload) + rest) == Some(payload),
{
    let buf = short_rlp_encoding(payload) + rest;
    if payload.len() == 1 && payload[0] < 0x80 {
        assert(buf[0] == payload[0]);
        assert(seq![buf[0]] =~= payload);
    } else {
        assert(buf[0] == (0x80 + payload.len()) as u8);
        assert(buf.subrange(1, 1 + payload.len() as int) =~= payload);
        if payload.len() == 1 {
            assert(buf[1] == payload[0]);
        }
    }
}

proof fn lemma_be_trimmed(n: nat)
    ensures
        be_value(be_trimmed(n)) == n,
        n > 0 ==> be_trimmed(n).len() >= 1 && be_trimmed(n)[0] != 0,
        n < 0x1_0000_0000_0000_0000 ==> be_trimmed(n).len() <= 8,
        n < 256 ==> be_trimmed(n).len() <= 1,
    decreases n,
{
    if n > 0 {
        lemma_be_trimmed(n / 256);
        let t = be_trimmed(n);
        assert(t.drop_last() =~= be_trimmed(n / 256));
        assert(t.last() == (n % 256) as u8);
        if n / 256 == 0 {
            assert(t[0] == (n % 256) as u8);
        } else {
            assert(t[0] == be_trimmed(n / 256)[0]);
        }
        if n < 0x1_0000_0000_0000_0000 {
            lemma_be_trimmed_len(n);
        }
    }
}

proof fn lemma_be_trimmed_len(n: nat)
    requires
        n < 0x1_0000_0000_0000_0000,
    ensures
        be_trimmed(n).len() <= 8,
{
    assert(crate::eth2::pow256(8) == 0x1_0000_0000_0000_0000) by {
        reveal_with_fuel(crate::eth2::pow256, 9);
    }
    lemma_be_trimmed_len_pow(n, 8);
}

proof fn lemma_be_trimmed_len_pow(n: nat, k: nat)
    requires
        n < crate::eth2::pow256(k),
    ensures
        be_trimmed(n).len() <= k,
    decreases n,
{
    if n > 0 {
        if k == 0 {
            assert(crate::eth2::pow256(0) == 1);
        } else {
            assert(crate::eth2::pow256(k) == 256 * crate::eth2::pow256((k - 1) as nat));
            lemma_be_trimmed_len_pow(n / 256, (k - 1) as nat);
        }
    }
}

/// Decoding an RLP byte string gives back what was encoded, whatever its length and
/// whatever follows it: short strings with a one-byte header (or none, for a single byte
/// below 0x80), strings of 56 bytes or more with the header `0xb7 + k` and their length
/// in `k` big-endian bytes.
pub proof fn rlp_bytes_roundtrip(payload: Seq<u8>, rest: Seq<u8>)
    requires
        payload.len() <= usize::MAX,
    ensures
        rlp_bytes_of(rlp_encoded_bytes(payload) + rest) == Some(payload),
{
    if payload.len() < 56 {
        lemma_short_rlp_roundtrip(payload, rest);
    } else {
        let n = payload.len();
        assert(crate::eth2::pow256(8) == 0x1_0000_0000_0000_0000) by {
            reveal_with_fuel(crate::eth2::pow256, 9);
        }
        assert(usize::MAX < 0x1_0000_0000_0000_0000);
        lemma_be_trimmed(n);
        let t = be_trimmed(n);
        let len = t.len();
        let buf = rlp_encoded_bytes(payload) + rest;
        assert(buf =~= seq![(0xb7 + len) as u8] + t + payload + rest);
        assert(buf[0] == (0xb7 + len) as u8);
        assert(buf.subrange(1, 1 + len as int) =~= t);
        assert(buf[1] == t[0]);
        assert(buf.subrange(1 + len as int, (1 + len + n) as int) =~= payload);
    }
}

} // verus!
