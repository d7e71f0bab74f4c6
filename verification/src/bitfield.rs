use vstd::prelude::*;

use ssz::Encode;
use ssz_types::length::Fixed;
use ssz_types::typenum::{UInt, UTerm, B0, B1, U4, U64};
use ssz_types::{BitVector, Bitfield};

verus! {

/// `ssz_types::Bitfield`, declared so that bit vectors can stand in signatures and fields.
#[verifier::external_type_specification]
#[verifier::external_body]
#[verifier::reject_recursive_types(T)]
pub struct ExBitfield<T>(Bitfield<T>);

/// `ssz_types::length::Fixed`, the length marker of a bit vector.
#[verifier::external_type_specification]
#[verifier::external_body]
#[verifier::reject_recursive_types(N)]
pub struct ExFixed<N>(Fixed<N>);

/// `typenum::UInt`, the type-level numbers that give bit vectors their lengths.
#[verifier::external_type_specification]
#[verifier::external_body]
#[verifier::reject_recursive_types(U)]
#[verifier::reject_recursive_types(B)]
pub struct ExUInt<U, B>(UInt<U, B>);

/// `typenum::UTerm`, the end of a type-level number.
#[verifier::external_type_specification]
#[verifier::external_body]
pub struct ExUTerm(UTerm);

/// `typenum::B0`, a zero bit of a type-level number.
#[verifier::external_type_specification]
#[verifier::external_body]
pub struct ExB0(B0);

/// `typenum::B1`, a one bit of a type-level number.
#[verifier::external_type_specification]
#[verifier::external_body]
pub struct ExB1(B1);

// ---------------------------------------------------------------------------
// The SSZ byte layout of a bit vector: bit `i` is bit `i % 8` (least significant first) of
// byte `i / 8`.
// ---------------------------------------------------------------------------

pub open spec fn bit_at(bits: Seq<bool>, i: int) -> bool {
    0 <= i < bits.len() && bits[i]
}

pub open spec fn flag(b: bool, mask: u8) -> u8 {
    if b {
        mask
    } else {
        0u8
    }
}

/// Byte `j` of the packed form of `bits`.
pub open spec fn pack_byte(bits: Seq<bool>, j: int) -> u8 {
    flag(bit_at(bits, 8 * j), 1u8) | flag(bit_at(bits, 8 * j + 1), 2u8) | flag(
        bit_at(bits, 8 * j + 2),
        4u8,
    ) | flag(bit_at(bits, 8 * j + 3), 8u8) | flag(bit_at(bits, 8 * j + 4), 16u8) | flag(
        bit_at(bits, 8 * j + 5),
        32u8,
    ) | flag(bit_at(bits, 8 * j + 6), 64u8) | flag(bit_at(bits, 8 * j + 7), 128u8)
}

/// The bytes that hold `bits`: one byte per eight bits, rounded up.
pub open spec fn bits_to_bytes(bits: Seq<bool>) -> Seq<u8> {
    Seq::new(((bits.len() + 7) / 8) as nat, |j: int| pack_byte(bits, j))
}

/// Whether bit `k` (0 = least significant) of `b` is set.
pub open spec fn byte_has_bit(b: u8, k: int) -> bool {
    b & (1u8 << (k as u8)) != 0
}

/// The first `n` bits held by `bytes`.
pub open spec fn bytes_to_bits(bytes: Seq<u8>, n: nat) -> Seq<bool> {
    Seq::new(n, |i: int| byte_has_bit(bytes[i / 8], i % 8))
}

proof fn lemma_pack_bit(x0: bool, x1: bool, x2: bool, x3: bool, x4: bool, x5: bool, x6: bool, x7: bool)
    ensures
        ({
            let b = flag(x0, 1u8) | flag(x1, 2u8) | flag(x2, 4u8) | flag(x3, 8u8) | flag(x4, 16u8)
                | flag(x5, 32u8) | flag(x6, 64u8) | flag(x7, 128u8);
            &&& byte_has_bit(b, 0) == x0
            &&& byte_has_bit(b, 1) == x1
            &&& byte_has_bit(b, 2) == x2
            &&& byte_has_bit(b, 3) == x3
            &&& byte_has_bit(b, 4) == x4
            &&& byte_has_bit(b, 5) == x5
            &&& byte_has_bit(b, 6) == x6
            &&& byte_has_bit(b, 7) == x7
        }),
{
    let f0 = flag(x0, 1u8);
    let f1 = flag(x1, 2u8);
    let f2 = flag(x2, 4u8);
    let f3 = flag(x3, 8u8);
    let f4 = flag(x4, 16u8);
    let f5 = flag(x5, 32u8);
    let f6 = flag(x6, 64u8);
    let f7 = flag(x7, 128u8);
    let b = f0 | f1 | f2 | f3 | f4 | f5 | f6 | f7;
    assert(b & (1u8 << 0u8) != 0 == (f0 != 0) && b & (1u8 << 1u8) != 0 == (f1 != 0) && b & (1u8
        << 2u8) != 0 == (f2 != 0) && b & (1u8 << 3u8) != 0 == (f3 != 0) && b & (1u8 << 4u8) != 0
        == (f4 != 0) && b & (1u8 << 5u8) != 0 == (f5 != 0) && b & (1u8 << 6u8) != 0 == (f6 != 0)
        && b & (1u8 << 7u8) != 0 == (f7 != 0)) by (bit_vector)
        requires
            f0 == 0 || f0 == 1,
            f1 == 0 || f1 == 2,
            f2 == 0 || f2 == 4,
            f3 == 0 || f3 == 8,
            f4 == 0 || f4 == 16,
            f5 == 0 || f5 == 32,
            f6 == 0 || f6 == 64,
            f7 == 0 || f7 == 128,
            b == f0 | f1 | f2 | f3 | f4 | f5 | f6 | f7,
    ;
}

/// Unpacking the packed form of `bits` gives `bits` back.
pub proof fn lemma_bits_bytes_roundtrip(bits: Seq<bool>)
    ensures
        bytes_to_bits(bits_to_bytes(bits), bits.len()) == bits,
{
    assert forall|i: int| 0 <= i < bits.len() implies #[trigger] bytes_to_bits(
        bits_to_bytes(bits),
        bits.len(),
    )[i] == bits[i] by {
        let j = i / 8;
        lemma_pack_bit(
            bit_at(bits, 8 * j),
            bit_at(bits, 8 * j + 1),
            bit_at(bits, 8 * j + 2),
            bit_at(bits, 8 * j + 3),
            bit_at(bits, 8 * j + 4),
            bit_at(bits, 8 * j + 5),
            bit_at(bits, 8 * j + 6),
            bit_at(bits, 8 * j + 7),
        );
        assert(j < (bits.len() + 7) / 8);
        assert(bits_to_bytes(bits)[j] == pack_byte(bits, j));
    }
    assert(bytes_to_bits(bits_to_bytes(bits), bits.len()) =~= bits);
}

// ---------------------------------------------------------------------------
// 64-bit vectors (attestation subnets)
// ---------------------------------------------------------------------------

/// The bits that a 64-bit `BitVector` holds, lowest index first.
pub uninterp spec fn bitvector64_bits(v: BitVector<U64>) -> Seq<bool>;

/// `BitVector::<U64>::new`: a vector of 64 bits, all unset.
#[verifier::external_body]
pub(crate) fn bitvector64_new() -> (r: BitVector<U64>)
    ensures
        bitvector64_bits(r) == Seq::new(64, |i: int| false),
{
    BitVector::<U64>::new()
}

/// `Bitfield::get` on a 64-bit vector: the bit at `i`, or an error past the end.
#[verifier::external_body]
pub(crate) fn bitvector64_get(v: &BitVector<U64>, i: usize) -> (r: Option<bool>)
    ensures
        r == (if i < bitvector64_bits(*v).len() {
            Some(bitvector64_bits(*v)[i as int])
        } else {
            None::<bool>
        }),
{
    v.get(i).ok()
}

/// `Bitfield::set` on a 64-bit vector: sets the bit at `i`, or fails past the end and leaves
/// the vector as it was.
#[verifier::external_body]
pub(crate) fn bitvector64_set(v: &mut BitVector<U64>, i: usize, value: bool) -> (ok: bool)
    ensures
        ok == (i < bitvector64_bits(*old(v)).len()),
        bitvector64_bits(*final(v)) == if ok {
            bitvector64_bits(*old(v)).update(i as int, value)
        } else {
            bitvector64_bits(*old(v))
        },
{
    v.set(i, value).is_ok()
}

/// `Encode::as_ssz_bytes` on a 64-bit vector: its eight packed bytes.
#[verifier::external_body]
pub(crate) fn bitvector64_ssz_bytes(v: &BitVector<U64>) -> (r: Vec<u8>)
    ensures
        r@ == bits_to_bytes(bitvector64_bits(*v)),
{
    v.as_ssz_bytes()
}

/// `BitVector::<U64>::from_bytes`: accepts exactly eight bytes.
#[verifier::external_body]
pub(crate) fn bitvector64_from_bytes(bytes: Vec<u8>) -> (r: Option<BitVector<U64>>)
    ensures
        r is Some <==> bytes@.len() == 8,
        r matches Some(v) ==> bitvector64_bits(v) == bytes_to_bits(bytes@, 64),
{
    BitVector::<U64>::from_bytes(bytes.into()).ok()
}

// ---------------------------------------------------------------------------
// 4-bit vectors (sync committee subnets)
// ---------------------------------------------------------------------------

/// The bits that a 4-bit `BitVector` holds, lowest index first.
pub uninterp spec fn bitvector4_bits(v: BitVector<U4>) -> Seq<bool>;

/// `BitVector::<U4>::new`: a vector of 4 bits, all unset.
#[verifier::external_body]
pub(crate) fn bitvector4_new() -> (r: BitVector<U4>)
    ensures
        bitvector4_bits(r) == Seq::new(4, |i: int| false),
{
    BitVector::<U4>::new()
}

/// `Bitfield::get` on a 4-bit vector: the bit at `i`, or an error past the end.
#[verifier::external_body]
pub(crate) fn bitvector4_get(v: &BitVector<U4>, i: usize) -> (r: Option<bool>)
    ensures
        r == (if i < bitvector4_bits(*v).len() {
            Some(bitvector4_bits(*v)[i as int])
        } else {
            None::<bool>
        }),
{
    v.get(i).ok()
}

/// `Bitfield::set` on a 4-bit vector: sets the bit at `i`, or fails past the end and leaves
/// the vector as it was.
#[verifier::external_body]
pub(crate) fn bitvector4_set(v: &mut BitVector<U4>, i: usize, value: bool) -> (ok: bool)
    ensures
        ok == (i < bitvector4_bits(*old(v)).len()),
        bitvector4_bits(*final(v)) == if ok {
            bitvector4_bits(*old(v)).update(i as int, value)
        } else {
            bitvector4_bits(*old(v))
        },
{
    v.set(i, value).is_ok()
}

/// `Encode::as_ssz_bytes` on a 4-bit vector: its one packed byte.
#[verifier::external_body]
pub(crate) fn bitvector4_ssz_bytes(v: &BitVector<U4>) -> (r: Vec<u8>)
    ensures
        r@ == bits_to_bytes(bitvector4_bits(*v)),
{
    v.as_ssz_bytes()
}

/// `BitVector::<U4>::from_bytes`: accepts exactly one byte whose upper four bits are clear.
#[verifier::external_body]
pub(crate) fn bitvector4_from_bytes(bytes: Vec<u8>) -> (r: Option<BitVector<U4>>)
    ensures
        r is Some <==> (bytes@.len() == 1 && bytes@[0] & 0xf0u8 == 0),
        r matches Some(v) ==> bitvector4_bits(v) == bytes_to_bits(bytes@, 4),
{
    BitVector::<U4>::from_bytes(bytes.into()).ok()
}

} // verus!
