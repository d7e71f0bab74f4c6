use vstd::prelude::*;

use ssz_types::typenum::{U4, U64};
use ssz_types::BitVector;
use crate::enr_fields::EnrFields;

use crate::bitfield::{
    bits_to_bytes, bitvector4_bits, bitvector4_from_bytes, bitvector4_get, bitvector4_new,
    bitvector4_set, bitvector4_ssz_bytes, bitvector64_bits, bitvector64_from_bytes, bitvector64_get,
    bitvector64_new, bitvector64_set, bitvector64_ssz_bytes, bytes_to_bits,
};
use crate::rlp::{
    opt_vec_view, rlp_bytes_of, rlp_decode_bytes, rlp_encode_bytes, rlp_encoded_bytes,
    short_rlp_encoding,
};

verus! {

/// Number of sync committee subnets.
pub const SYNC_COMMITTEE_SUBNET_COUNT: usize = 4;

/// Number of attestation subnets.
pub const ATTESTATION_SUBNET_COUNT: usize = 64;

/// ENR key of the attestation subnet bitfield.
pub const ATTESTATION_BITFIELD_ENR_KEY: &'static str = "attnets";

/// ENR key of the sync committee subnet bitfield.
pub const SYNC_COMMITTEE_BITFIELD_ENR_KEY: &'static str = "syncnets";

/// A subnet that a validator can take part in.
#[derive(Clone, Copy, Debug, PartialEq, Eq, Structural)]
pub enum Subnet {
    Attestation(u8),
    SyncCommittee(u8),
}

/// Why an operation on subnet bitfields failed.
#[derive(Clone, Copy, Debug, PartialEq, Eq, Structural)]
pub enum SubnetError {
    /// A bit index past the end of the bitfield.
    OutOfBounds,
    /// A subnet of the other kind was given.
    WrongSubnetKind,
    /// Fewer bytes than the bitfield needs.
    InsufficientBytes,
    /// The bytes are not a valid bitfield.
    InvalidBitfield,
    /// The bytes are not an RLP byte string.
    InvalidRlp,
}

/// Attestation subnets a node is subscribed to: a 64-bit vector.
#[derive(Debug)]
pub struct AttestationSubnets(pub BitVector<U64>);

/// Sync committee subnets a node is subscribed to: a 4-bit vector.
#[derive(Debug)]
pub struct SyncCommitteeSubnets(pub BitVector<U4>);

/// `bits` with bit `i` set to `value`, when `i` is in range.
pub open spec fn set_bit(bits: Seq<bool>, i: int, value: bool) -> Seq<bool> {
    if 0 <= i < bits.len() {
        bits.update(i, value)
    } else {
        bits
    }
}

/// Decoding an attestation bitfield from an ENR field value: an RLP byte string of exactly
/// eight bytes.
pub open spec fn attestation_field(buf: Seq<u8>) -> Result<Seq<bool>, SubnetError> {
    match rlp_bytes_of(buf) {
        None => Err(SubnetError::InvalidRlp),
        Some(p) => if p.len() < 8 {
            Err(SubnetError::InsufficientBytes)
        } else if p.len() > 8 {
            Err(SubnetError::InvalidBitfield)
        } else {
            Ok(bytes_to_bits(p, 64))
        },
    }
}

/// Decoding a sync committee bitfield from an ENR field value: an RLP byte string of one byte
/// whose upper four bits are clear.
pub open spec fn sync_committee_field(buf: Seq<u8>) -> Result<Seq<bool>, SubnetError> {
    match rlp_bytes_of(buf) {
        None => Err(SubnetError::InvalidRlp),
        Some(p) => if p.len() == 0 {
            Err(SubnetError::InsufficientBytes)
        } else if p.len() > 1 || p[0] & 0xf0u8 != 0 {
            Err(SubnetError::InvalidBitfield)
        } else {
            Ok(bytes_to_bits(p, 4))
        },
    }
}

impl AttestationSubnets {
    pub open spec fn bits(&self) -> Seq<bool> {
        bitvector64_bits(self.0)
    }

    /// The bitfield has its 64 bits.
    pub open spec fn wf(&self) -> bool {
        self.bits().len() == 64
    }

    /// No subnet enabled.
    pub fn new() -> (r: AttestationSubnets)
        ensures
            r.wf(),
            r.bits() == Seq::new(64, |i: int| false),
    {
        AttestationSubnets(bitvector64_new())
    }

    /// Sets the bit of subnet `index`; an error past the end of the bitfield.
    pub fn set(&mut self, index: usize, value: bool) -> (r: Result<(), SubnetError>)
        ensures
            r is Ok <==> index < old(self).bits().len(),
            r is Err ==> r == Err::<(), SubnetError>(SubnetError::OutOfBounds),
            final(self).bits() == set_bit(old(self).bits(), index as int, value),
    {
        if bitvector64_set(&mut self.0, index, value) {
            Ok(())
        } else {
            Err(SubnetError::OutOfBounds)
        }
    }

    /// The bit of subnet `index`; an error past the end of the bitfield.
    pub fn get(&self, index: usize) -> (r: Result<bool, SubnetError>)
        ensures
            r == (if index < self.bits().len() {
                Ok(self.bits()[index as int])
            } else {
                Err(SubnetError::OutOfBounds)
            }),
    {
        match bitvector64_get(&self.0, index) {
            Some(b) => Ok(b),
            None => Err(SubnetError::OutOfBounds),
        }
    }

    /// Enables an attestation subnet (ids of 64 and above are ignored); a sync committee
    /// subnet is refused.
    pub fn enable_subnet(&mut self, subnet: Subnet) -> (r: Result<(), SubnetError>)
        ensures
            match subnet {
                Subnet::Attestation(id) => {
                    &&& r is Ok <==> (id >= 64 || id < old(self).bits().len())
                    &&& r is Err ==> r == Err::<(), SubnetError>(SubnetError::OutOfBounds)
                    &&& final(self).bits() == if id < 64 {
                        set_bit(old(self).bits(), id as int, true)
                    } else {
                        old(self).bits()
                    }
                },
                Subnet::SyncCommittee(_) => {
                    &&& r == Err::<(), SubnetError>(SubnetError::WrongSubnetKind)
                    &&& final(self).bits() == old(self).bits()
                },
            },
    {
        match subnet {
            Subnet::Attestation(id) => {
                if id < 64 {
                    self.set(id as usize, true)?;
                }
                Ok(())
            },
            _ => Err(SubnetError::WrongSubnetKind),
        }
    }

    /// Disables an attestation subnet (ids of 64 and above are ignored); a sync committee
    /// subnet is refused.
    pub fn disable_subnet(&mut self, subnet: Subnet) -> (r: Result<(), SubnetError>)
        ensures
            match subnet {
                Subnet::Attestation(id) => {
                    &&& r is Ok <==> (id >= 64 || id < old(self).bits().len())
                    &&& r is Err ==> r == Err::<(), SubnetError>(SubnetError::OutOfBounds)
                    &&& final(self).bits() == if id < 64 {
                        set_bit(old(self).bits(), id as int, false)
                    } else {
                        old(self).bits()
                    }
                },
                Subnet::SyncCommittee(_) => {
                    &&& r == Err::<(), SubnetError>(SubnetError::WrongSubnetKind)
                    &&& final(self).bits() == old(self).bits()
                },
            },
    {
        match subnet {
            Subnet::Attestation(id) => {
                if id < 64 {
                    self.set(id as usize, false)?;
                }
                Ok(())
            },
            _ => Err(SubnetError::WrongSubnetKind),
        }
    }

    /// The RLP encoding (as a byte string) of the SSZ bytes of the bitfield, as kept in an
    /// ENR.
    pub fn encode(&self) -> (r: Vec<u8>)
        ensures
            r@ == rlp_encoded_bytes(bits_to_bytes(self.bits())),
            self.wf() ==> r@ == short_rlp_encoding(bits_to_bytes(self.bits())),
    {
        let bytes = bitvector64_ssz_bytes(&self.0);
        rlp_encode_bytes(bytes.as_slice())
    }

    /// Decodes the bitfield from an RLP byte string of eight SSZ bytes.
    pub fn decode(buf: &[u8]) -> (r: Result<AttestationSubnets, SubnetError>)
        ensures
            match r {
                Ok(s) => s.wf() && attestation_field(buf@) == Ok::<Seq<bool>, SubnetError>(s.bits()),
                Err(e) => attestation_field(buf@) == Err::<Seq<bool>, SubnetError>(e),
            },
    {
        let payload = match rlp_decode_bytes(buf) {
            Some(p) => p,
            None => {
                return Err(SubnetError::InvalidRlp);
            },
        };
        if payload.len() < 8 {
            return Err(SubnetError::InsufficientBytes);
        }
        match bitvector64_from_bytes(payload) {
            Some(bits) => Ok(AttestationSubnets(bits)),
            None => Err(SubnetError::InvalidBitfield),
        }
    }
}

impl SyncCommitteeSubnets {
    pub open spec fn bits(&self) -> Seq<bool> {
        bitvector4_bits(self.0)
    }

    /// The bitfield has its 4 bits.
    pub open spec fn wf(&self) -> bool {
        self.bits().len() == 4
    }

    /// No subnet enabled.
    pub fn new() -> (r: SyncCommitteeSubnets)
        ensures
            r.wf(),
            r.bits() == Seq::new(4, |i: int| false),
    {
        SyncCommitteeSubnets(bitvector4_new())
    }

    /// Sets the bit of subnet `index`; an error past the end of the bitfield.
    pub fn set(&mut self, index: usize, value: bool) -> (r: Result<(), SubnetError>)
        ensures
            r is Ok <==> index < old(self).bits().len(),
            r is Err ==> r == Err::<(), SubnetError>(SubnetError::OutOfBounds),
            final(self).bits() == set_bit(old(self).bits(), index as int, value),
    {
        if bitvector4_set(&mut self.0, index, value) {
            Ok(())
        } else {
            Err(SubnetError::OutOfBounds)
        }
    }

    /// The bit of subnet `index`; an error past the end of the bitfield.
    pub fn get(&self, index: usize) -> (r: Result<bool, SubnetError>)
        ensures
            r == (if index < self.bits().len() {
                Ok(self.bits()[index as int])
            } else {
                Err(SubnetError::OutOfBounds)
            }),
    {
        match bitvector4_get(&self.0, index) {
            Some(b) => Ok(b),
            None => Err(SubnetError::OutOfBounds),
        }
    }

    /// Enables a sync committee subnet (ids of 4 and above are ignored); an attestation subnet
    /// is refused.
    pub fn enable_subnet(&mut self, subnet: Subnet) -> (r: Result<(), SubnetError>)
        ensures
            match subnet {
                Subnet::SyncCommittee(id) => {
                    &&& r is Ok <==> (id >= 4 || id < old(self).bits().len())
                    &&& r is Err ==> r == Err::<(), SubnetError>(SubnetError::OutOfBounds)
                    &&& final(self).bits() == if id < 4 {
                        set_bit(old(self).bits(), id as int, true)
                    } else {
                        old(self).bits()
                    }
                },
                Subnet::Attestation(_) => {
                    &&& r == Err::<(), SubnetError>(SubnetError::WrongSubnetKind)
                    &&& final(self).bits() == old(self).bits()
                },
            },
    {
        match subnet {
            Subnet::SyncCommittee(id) => {
                if id < 4 {
                    self.set(id as usize, true)?;
                }
                Ok(())
            },
            _ => Err(SubnetError::WrongSubnetKind),
        }
    }

    /// Disables a sync committee subnet (ids of 4 and above are ignored); an attestation subnet
    /// is refused.
    pub fn disable_subnet(&mut self, subnet: Subnet) -> (r: Result<(), SubnetError>)
        ensures
            match subnet {
                Subnet::SyncCommittee(id) => {
                    &&& r is Ok <==> (id >= 4 || id < old(self).bits().len())
                    &&& r is Err ==> r == Err::<(), SubnetError>(SubnetError::OutOfBounds)
                    &&& final(self).bits() == if id < 4 {
                        set_bit(old(self).bits(), id as int, false)
                    } else {
                        old(self).bits()
                    }
                },
                Subnet::Attestation(_) => {
                    &&& r == Err::<(), SubnetError>(SubnetError::WrongSubnetKind)
                    &&& final(self).bits() == old(self).bits()
                },
            },
    {
        match subnet {
            Subnet::SyncCommittee(id) => {
                if id < 4 {
                    self.set(id as usize, false)?;
                }
                Ok(())
            },
            _ => Err(SubnetError::WrongSubnetKind),
        }
    }

    /// The RLP encoding (as a byte string) of the SSZ byte of the bitfield, as kept in an ENR.
    pub fn encode(&self) -> (r: Vec<u8>)
        ensures
            r@ == rlp_encoded_bytes(bits_to_bytes(self.bits())),
            self.wf() ==> r@ == short_rlp_encoding(bits_to_bytes(self.bits())),
    {
        let bytes = bitvector4_ssz_bytes(&self.0);
        rlp_encode_bytes(bytes.as_slice())
    }

    /// Decodes the bitfield from an RLP byte string holding its one SSZ byte.
    pub fn decode(buf: &[u8]) -> (r: Result<SyncCommitteeSubnets, SubnetError>)
        ensures
            match r {
                Ok(s) => s.wf() && sync_committee_field(buf@) == Ok::<Seq<bool>, SubnetError>(
                    s.bits(),
                ),
                Err(e) => sync_committee_field(buf@) == Err::<Seq<bool>, SubnetError>(e),
            },
    {
        let payload = match rlp_decode_bytes(buf) {
            Some(p) => p,
            None => {
                return Err(SubnetError::InvalidRlp);
            },
        };
        if payload.len() == 0 {
            return Err(SubnetError::InsufficientBytes);
        }
        match bitvector4_from_bytes(payload) {
            Some(bits) => Ok(SyncCommitteeSubnets(bits)),
            None => Err(SubnetError::InvalidBitfield),
        }
    }
}


/// Attestation and sync committee subnet bitfields, each of which may be absent.
#[derive(Debug)]
pub struct Subnets {
    pub attestation_bits: Option<BitVector<U64>>,
    pub sync_committee_bits: Option<BitVector<U4>>,
}

pub open spec fn opt_bits64(b: Option<BitVector<U64>>) -> Option<Seq<bool>> {
    match b {
        Some(v) => Some(bitvector64_bits(v)),
        None => None,
    }
}

pub open spec fn opt_bits4(b: Option<BitVector<U4>>) -> Option<Seq<bool>> {
    match b {
        Some(v) => Some(bitvector4_bits(v)),
        None => None,
    }
}

/// The optional bitfield `bits` after setting bit `id` to `value`, when `id` is below `limit`.
pub open spec fn switched(bits: Option<Seq<bool>>, id: int, limit: int, value: bool) -> Option<
    Seq<bool>,
> {
    match bits {
        Some(b) => if id < limit {
            Some(set_bit(b, id, value))
        } else {
            Some(b)
        },
        None => None,
    }
}

/// What switching subnet `id` of a bitfield answers: an error only when the id is below
/// `limit` but past the end of a present bitfield.
pub open spec fn switch_result(bits: Option<Seq<bool>>, id: int, limit: int) -> Result<(), SubnetError> {
    match bits {
        Some(b) => if id < limit && id >= b.len() {
            Err(SubnetError::OutOfBounds)
        } else {
            Ok(())
        },
        None => Ok(()),
    }
}

/// Whether subnet `id` is active in the optional bitfield `bits`, ids at or above `limit`
/// and absent bitfields counting as inactive.
pub open spec fn activity(bits: Option<Seq<bool>>, id: int, limit: int) -> Result<bool, SubnetError> {
    match bits {
        Some(b) => if id < limit {
            if id < b.len() {
                Ok(b[id])
            } else {
                Err(SubnetError::OutOfBounds)
            }
        } else {
            Ok(false)
        },
        None => Ok(false),
    }
}

impl Subnets {
    pub open spec fn attestation(&self) -> Option<Seq<bool>> {
        opt_bits64(self.attestation_bits)
    }

    pub open spec fn sync_committee(&self) -> Option<Seq<bool>> {
        opt_bits4(self.sync_committee_bits)
    }

    /// Both bitfields present, with no subnet enabled.
    pub fn new() -> (r: Subnets)
        ensures
            r.attestation() == Some(Seq::new(64, |i: int| false)),
            r.sync_committee() == Some(Seq::new(4, |i: int| false)),
    {
        Subnets {
            attestation_bits: Some(bitvector64_new()),
            sync_committee_bits: Some(bitvector4_new()),
        }
    }

    /// Sets or clears the bit of `subnet` in its bitfield (when present and the id is in range
    /// of its kind).
    fn switch_subnet(&mut self, subnet: Subnet, value: bool) -> (r: Result<(), SubnetError>)
        ensures
            match subnet {
                Subnet::Attestation(id) => {
                    &&& r == switch_result(old(self).attestation(), id as int, 64)
                    &&& final(self).attestation() == switched(
                        old(self).attestation(),
                        id as int,
                        64,
                        value,
                    )
                    &&& final(self).sync_committee() == old(self).sync_committee()
                },
                Subnet::SyncCommittee(id) => {
                    &&& r == switch_result(old(self).sync_committee(), id as int, 4)
                    &&& final(self).sync_committee() == switched(
                        old(self).sync_committee(),
                        id as int,
                        4,
                        value,
                    )
                    &&& final(self).attestation() == old(self).attestation()
                },
            },
    {
        match subnet {
            Subnet::Attestation(id) => {
                match &mut self.attestation_bits {
                    Some(bits) => {
                        if id < 64 {
                            if !bitvector64_set(bits, id as usize, value) {
                                return Err(SubnetError::OutOfBounds);
                            }
                        }
                    },
                    None => {},
                }
                Ok(())
            },
            Subnet::SyncCommittee(id) => {
                match &mut self.sync_committee_bits {
                    Some(bits) => {
                        if id < 4 {
                            if !bitvector4_set(bits, id as usize, value) {
                                return Err(SubnetError::OutOfBounds);
                            }
                        }
                    },
                    None => {},
                }
                Ok(())
            },
        }
    }

    /// Enables `subnet` in its bitfield; ids past the subnet count of their kind, and absent
    /// bitfields, are left alone.
    pub fn enable_subnet(&mut self, subnet: Subnet) -> (r: Result<(), SubnetError>)
        ensures
            match subnet {
                Subnet::Attestation(id) => {
                    &&& r == switch_result(old(self).attestation(), id as int, 64)
                    &&& final(self).attestation() == switched(
                        old(self).attestation(),
                        id as int,
                        64,
                        true,
                    )
                    &&& final(self).sync_committee() == old(self).sync_committee()
                },
                Subnet::SyncCommittee(id) => {
                    &&& r == switch_result(old(self).sync_committee(), id as int, 4)
                    &&& final(self).sync_committee() == switched(
                        old(self).sync_committee(),
                        id as int,
                        4,
                        true,
                    )
                    &&& final(self).attestation() == old(self).attestation()
                },
            },
    {
        self.switch_subnet(subnet, true)
    }

    /// Disables `subnet` in its bitfield; ids past the subnet count of their kind, and absent
    /// bitfields, are left alone.
    pub fn disable_subnet(&mut self, subnet: Subnet) -> (r: Result<(), SubnetError>)
        ensures
            match subnet {
                Subnet::Attestation(id) => {
                    &&& r == switch_result(old(self).attestation(), id as int, 64)
                    &&& final(self).attestation() == switched(
                        old(self).attestation(),
                        id as int,
                        64,
                        false,
                    )
                    &&& final(self).sync_committee() == old(self).sync_committee()
                },
                Subnet::SyncCommittee(id) => {
                    &&& r == switch_result(old(self).sync_committee(), id as int, 4)
                    &&& final(self).sync_committee() == switched(
                        old(self).sync_committee(),
                        id as int,
                        4,
                        false,
                    )
                    &&& final(self).attestation() == old(self).attestation()
                },
            },
    {
        self.switch_subnet(subnet, false)
    }

    /// Whether `subnet` is enabled; subnets past the count of their kind, and absent bitfields,
    /// are inactive.
    pub fn is_active(&self, subnet: Subnet) -> (r: Result<bool, SubnetError>)
        ensures
            r == match subnet {
                Subnet::Attestation(id) => activity(self.attestation(), id as int, 64),
                Subnet::SyncCommittee(id) => activity(self.sync_committee(), id as int, 4),
            },
    {
        match subnet {
            Subnet::Attestation(id) => {
                if let Some(bits) = &self.attestation_bits {
                    if id < 64 {
                        return match bitvector64_get(bits, id as usize) {
                            Some(b) => Ok(b),
                            None => Err(SubnetError::OutOfBounds),
                        };
                    }
                }
                Ok(false)
            },
            Subnet::SyncCommittee(id) => {
                if let Some(bits) = &self.sync_committee_bits {
                    if id < 4 {
                        return match bitvector4_get(bits, id as usize) {
                            Some(b) => Ok(b),
                            None => Err(SubnetError::OutOfBounds),
                        };
                    }
                }
                Ok(false)
            },
        }
    }

    /// The RLP byte string of the attestation bitfield's SSZ bytes (empty when absent).
    pub fn encode(&self) -> (r: Vec<u8>)
        ensures
            r@ == rlp_encoded_bytes(
                match self.attestation() {
                    Some(b) => bits_to_bytes(b),
                    None => Seq::<u8>::empty(),
                },
            ),
    {
        match &self.attestation_bits {
            Some(bits) => {
                let bytes = bitvector64_ssz_bytes(bits);
                rlp_encode_bytes(bytes.as_slice())
            },
            None => {
                let empty: Vec<u8> = Vec::new();
                assert(empty@ =~= Seq::<u8>::empty());
                rlp_encode_bytes(empty.as_slice())
            },
        }
    }

    /// The RLP byte string of the sync committee bitfield's SSZ byte (empty when absent).
    pub fn encode_sync_committee(&self) -> (r: Vec<u8>)
        ensures
            r@ == rlp_encoded_bytes(
                match self.sync_committee() {
                    Some(b) => bits_to_bytes(b),
                    None => Seq::<u8>::empty(),
                },
            ),
    {
        match &self.sync_committee_bits {
            Some(bits) => {
                let bytes = bitvector4_ssz_bytes(bits);
                rlp_encode_bytes(bytes.as_slice())
            },
            None => {
                let empty: Vec<u8> = Vec::new();
                assert(empty@ =~= Seq::<u8>::empty());
                rlp_encode_bytes(empty.as_slice())
            },
        }
    }

    /// Decodes an ENR subnet field: eight or more bytes are read as the attestation bitfield,
    /// one to seven bytes as the sync committee bitfield (either absent when its bytes are
    /// invalid); no bytes at all is an error.
    pub fn decode(buf: &[u8]) -> (r: Result<Subnets, SubnetError>)
        ensures
            match rlp_bytes_of(buf@) {
                None => r matches Err(e) && e == SubnetError::InvalidRlp,
                Some(p) => if p.len() >= 8 {
                    r matches Ok(s) && s.sync_committee() is None && s.attestation() == (if p.len()
                        == 8 {
                        Some(bytes_to_bits(p, 64))
                    } else {
                        None
                    })
                } else if p.len() > 0 {
                    r matches Ok(s) && s.attestation() is None && s.sync_committee() == (if p.len()
                        == 1 && p[0] & 0xf0u8 == 0 {
                        Some(bytes_to_bits(p, 4))
                    } else {
                        None
                    })
                } else {
                    r matches Err(e) && e == SubnetError::InsufficientBytes
                },
            },
    {
        let payload = match rlp_decode_bytes(buf) {
            Some(p) => p,
            None => {
                return Err(SubnetError::InvalidRlp);
            },
        };
        if payload.len() >= 8 {
            Ok(Subnets { attestation_bits: bitvector64_from_bytes(payload), sync_committee_bits: None })
        } else if payload.len() > 0 {
            Ok(Subnets { attestation_bits: None, sync_committee_bits: bitvector4_from_bytes(payload) })
        } else {
            Err(SubnetError::InsufficientBytes)
        }
    }

    /// Decodes the sync committee ENR field: any non-empty byte string, the bitfield being
    /// absent when its bytes are invalid.
    pub fn decode_sync_committee(buf: &[u8]) -> (r: Result<Subnets, SubnetError>)
        ensures
            match rlp_bytes_of(buf@) {
                None => r matches Err(e) && e == SubnetError::InvalidRlp,
                Some(p) => if p.len() > 0 {
                    r matches Ok(s) && s.attestation() is None && s.sync_committee() == (if p.len()
                        == 1 && p[0] & 0xf0u8 == 0 {
                        Some(bytes_to_bits(p, 4))
                    } else {
                        None
                    })
                } else {
                    r matches Err(e) && e == SubnetError::InsufficientBytes
                },
            },
    {
        let payload = match rlp_decode_bytes(buf) {
            Some(p) => p,
            None => {
                return Err(SubnetError::InvalidRlp);
            },
        };
        if payload.len() == 0 {
            return Err(SubnetError::InsufficientBytes);
        }
        Ok(Subnets { attestation_bits: None, sync_committee_bits: bitvector4_from_bytes(payload) })
    }
}

// ---------------------------------------------------------------------------
// Selecting peers by subnet
// ---------------------------------------------------------------------------

/// A test on peers' ENRs: do they serve the given subnets?
#[derive(Debug)]
pub struct SubnetPredicate {
    pub subnets: Vec<Subnet>,
}

pub open spec fn has_attestation(subnets: Seq<Subnet>) -> bool {
    exists|i: int| 0 <= i < subnets.len() && (#[trigger] subnets[i]) is Attestation
}

pub open spec fn has_sync_committee(subnets: Seq<Subnet>) -> bool {
    exists|i: int| 0 <= i < subnets.len() && (#[trigger] subnets[i]) is SyncCommittee
}

/// The bits of a field value that decodes as a 64-bit attestation bitfield.
pub open spec fn decoded_attnets(field: Option<Seq<u8>>) -> Option<Seq<bool>> {
    match field {
        Some(v) => match attestation_field(v) {
            Ok(bits) => Some(bits),
            Err(_) => None,
        },
        None => None,
    }
}

/// The bits of a field value that decodes as a 4-bit sync committee bitfield.
pub open spec fn decoded_syncnets(field: Option<Seq<u8>>) -> Option<Seq<bool>> {
    match field {
        Some(v) => match sync_committee_field(v) {
            Ok(bits) => Some(bits),
            Err(_) => None,
        },
        None => None,
    }
}

/// Whether a peer with the given decoded subnet bitfields passes the test for `subnets`:
/// every peer passes an empty test; otherwise the peer is refused when a bitfield that the
/// test needs is missing or invalid, or when a requested id lies past its bitfield; and it
/// passes when, for each kind requested, one of the requested subnets of that kind is enabled.
pub open spec fn subnets_match(
    subnets: Seq<Subnet>,
    attnets: Option<Seq<bool>>,
    syncnets: Option<Seq<bool>>,
) -> bool {
    if subnets.len() == 0 {
        true
    } else {
        let att_ok = !has_attestation(subnets) || (attnets matches Some(bits) && (forall|i: int|
            0 <= i < subnets.len() ==> (#[trigger] subnets[i] matches Subnet::Attestation(id) ==> id
                < 64)) && exists|i: int|
            0 <= i < subnets.len() && (#[trigger] subnets[i] matches Subnet::Attestation(id) && bits[id as int]));
        let sync_ok = !has_sync_committee(subnets) || (syncnets matches Some(bits) && (forall|i: int|
            0 <= i < subnets.len() ==> (#[trigger] subnets[i] matches Subnet::SyncCommittee(id) ==> id
                < 4)) && exists|i: int|
            0 <= i < subnets.len() && (#[trigger] subnets[i] matches Subnet::SyncCommittee(id) && bits[id as int]));
        att_ok && sync_ok
    }
}

/// The id of a subnet, whatever its kind.
pub open spec fn subnet_id_of(s: Subnet) -> int {
    match s {
        Subnet::Attestation(id) => id as int,
        Subnet::SyncCommittee(id) => id as int,
    }
}

/// The subnet test on a peer's bitfields: an empty request passes every peer. A request
/// of attestation subnets alone, all below 64, passes a peer exactly when its attestation
/// bitfield is known and enables one of them; a request of sync committee subnets alone,
/// all below 4, passes exactly when its sync committee bitfield is known and enables one
/// of them. A request naming an attestation subnet of 64 or more, or a sync committee
/// subnet of 4 or more, passes no peer.
pub proof fn subnet_test_passes_when_a_requested_subnet_is_enabled(
    subnets: Seq<Subnet>,
    attnets: Option<Seq<bool>>,
    syncnets: Option<Seq<bool>>,
)
    ensures
        subnets.len() == 0 ==> subnets_match(subnets, attnets, syncnets),
        subnets.len() > 0 && (forall|i: int| 0 <= i < subnets.len() ==> (#[trigger] subnets[i]) is Attestation
            && subnet_id_of(subnets[i]) < 64) ==> (subnets_match(subnets, attnets, syncnets) <==> (
        attnets matches Some(bits) && exists|i: int|
            0 <= i < subnets.len() && bits[subnet_id_of(#[trigger] subnets[i])])),
        subnets.len() > 0 && (forall|i: int| 0 <= i < subnets.len() ==> (#[trigger] subnets[i]) is SyncCommittee
            && subnet_id_of(subnets[i]) < 4) ==> (subnets_match(subnets, attnets, syncnets) <==> (
        syncnets matches Some(bits) && exists|i: int|
            0 <= i < subnets.len() && bits[subnet_id_of(#[trigger] subnets[i])])),
        (exists|i: int|
            0 <= i < subnets.len() && ((#[trigger] subnets[i] is Attestation && subnet_id_of(
                subnets[i],
            ) >= 64) || (subnets[i] is SyncCommittee && subnet_id_of(subnets[i]) >= 4))) ==> !subnets_match(
            subnets,
            attnets,
            syncnets,
        ),
{
    if subnets.len() > 0 {
        assert(subnets[0] == subnets[0]);
        if forall|i: int| 0 <= i < subnets.len() ==> (#[trigger] subnets[i]) is Attestation
            && subnet_id_of(subnets[i]) < 64 {
            assert(subnets[0] is Attestation);
            assert(has_attestation(subnets));
            assert(!has_sync_committee(subnets)) by {
                if has_sync_committee(subnets) {
                    let k = choose|k: int| 0 <= k < subnets.len() && (#[trigger] subnets[k]) is SyncCommittee;
                    assert(subnets[k] is Attestation);
                }
            }
        }
        if forall|i: int| 0 <= i < subnets.len() ==> (#[trigger] subnets[i]) is SyncCommittee
            && subnet_id_of(subnets[i]) < 4 {
            assert(subnets[0] is SyncCommittee);
            assert(has_sync_committee(subnets));
            assert(!has_attestation(subnets)) by {
                if has_attestation(subnets) {
                    let k = choose|k: int| 0 <= k < subnets.len() && (#[trigger] subnets[k]) is Attestation;
                    assert(subnets[k] is SyncCommittee);
                }
            }
        }
        if exists|i: int|
            0 <= i < subnets.len() && ((#[trigger] subnets[i] is Attestation && subnet_id_of(
                subnets[i],
            ) >= 64) || (subnets[i] is SyncCommittee && subnet_id_of(subnets[i]) >= 4)) {
            let k = choose|i: int|
                0 <= i < subnets.len() && ((#[trigger] subnets[i] is Attestation && subnet_id_of(
                    subnets[i],
                ) >= 64) || (subnets[i] is SyncCommittee && subnet_id_of(subnets[i]) >= 4));
            if subnets[k] is Attestation {
                assert(has_attestation(subnets));
            } else {
                assert(has_sync_committee(subnets));
            }
        }
    }
}

pub open spec fn opt_vec_bytes(v: Option<Vec<u8>>) -> Option<Seq<u8>> {
    opt_vec_view(v)
}

/// The test for peers that serve one of `subnets` of each kind requested.
pub fn subnet_predicate(subnets: Vec<Subnet>) -> (r: SubnetPredicate)
    ensures
        r.subnets@ == subnets@,
{
    SubnetPredicate { subnets }
}

/// The test that every peer passes.
pub fn empty_predicate() -> (r: SubnetPredicate)
    ensures
        r.subnets@.len() == 0,
        forall|a: Option<Seq<bool>>, s: Option<Seq<bool>>| #[trigger] subnets_match(r.subnets@, a, s),
{
    SubnetPredicate { subnets: Vec::new() }
}

impl SubnetPredicate {
    /// Whether the peer whose ENR holds `fields` passes the test.
    pub fn matches(&self, fields: &EnrFields) -> (r: bool)
        ensures
            r == subnets_match(
                self.subnets@,
                decoded_attnets(opt_vec_bytes(fields.attnets)),
                decoded_syncnets(opt_vec_bytes(fields.syncnets)),
            ),
    {
        let ghost subnets = self.subnets@;
        let ghost att = decoded_attnets(opt_vec_bytes(fields.attnets));
        let ghost sync = decoded_syncnets(opt_vec_bytes(fields.syncnets));
        let mut has_att = false;
        let mut has_sync = false;
        let mut i: usize = 0;
        while i < self.subnets.len()
            invariant
                i <= self.subnets@.len(),
                subnets == self.subnets@,
                has_att <==> exists|k: int| 0 <= k < i && (#[trigger] subnets[k]) is Attestation,
                has_sync <==> exists|k: int| 0 <= k < i && (#[trigger] subnets[k]) is SyncCommittee,
            decreases self.subnets.len() - i,
        {
            match self.subnets[i] {
                Subnet::Attestation(_) => {
                    has_att = true;
                },
                Subnet::SyncCommittee(_) => {
                    has_sync = true;
                },
            }
            i = i + 1;
        }
        if self.subnets.len() == 0 {
            return true;
        }
        let att_match = if has_att {
            let bits = match &fields.attnets {
                Some(v) => match AttestationSubnets::decode(v.as_slice()) {
                    Ok(b) => b,
                    Err(_) => {
                        return false;
                    },
                },
                None => {
                    return false;
                },
            };
            assert(att == Some(bits.bits()));
            let mut matched = false;
            let mut i: usize = 0;
            while i < self.subnets.len()
                invariant
                    i <= self.subnets@.len(),
                    subnets == self.subnets@,
                    bits.wf(),
                    forall|k: int|
                        0 <= k < i ==> (#[trigger] subnets[k] matches Subnet::Attestation(id) ==> id
                            < 64),
                    matched <==> exists|k: int|
                        0 <= k < i && (#[trigger] subnets[k] matches Subnet::Attestation(id)
                            && bits.bits()[id as int]),
                decreases self.subnets.len() - i,
            {
                if let Subnet::Attestation(id) = self.subnets[i] {
                    if id >= 64 {
                        return false;
                    }
                    match bits.get(id as usize) {
                        Ok(true) => {
                            matched = true;
                        },
                        _ => {},
                    }
                }
                i = i + 1;
            }
            matched
        } else {
            true
        };
        let sync_match = if has_sync {
            let bits = match &fields.syncnets {
                Some(v) => match SyncCommitteeSubnets::decode(v.as_slice()) {
                    Ok(b) => b,
                    Err(_) => {
                        return false;
                    },
                },
                None => {
                    return false;
                },
            };
            assert(sync == Some(bits.bits()));
            let mut matched = false;
            let mut i: usize = 0;
            while i < self.subnets.len()
                invariant
                    i <= self.subnets@.len(),
                    subnets == self.subnets@,
                    bits.wf(),
                    forall|k: int|
                        0 <= k < i ==> (#[trigger] subnets[k] matches Subnet::SyncCommittee(id) ==> id
                            < 4),
                    matched <==> exists|k: int|
                        0 <= k < i && (#[trigger] subnets[k] matches Subnet::SyncCommittee(id)
                            && bits.bits()[id as int]),
                decreases self.subnets.len() - i,
            {
                if let Subnet::SyncCommittee(id) = self.subnets[i] {
                    if id >= 4 {
                        return false;
                    }
                    match bits.get(id as usize) {
                        Ok(true) => {
                            matched = true;
                        },
                        _ => {},
                    }
                }
                i = i + 1;
            }
            matched
        } else {
            true
        };
        att_match && sync_match
    }
}


// ---------------------------------------------------------------------------
// Laws
// ---------------------------------------------------------------------------

/// Decoding the ENR field that `AttestationSubnets::encode` writes gives back the same bits.
pub proof fn attestation_subnets_roundtrip(bits: Seq<bool>)
    requires
        bits.len() == 64,
    ensures
        attestation_field(short_rlp_encoding(bits_to_bytes(bits))) == Ok::<Seq<bool>, SubnetError>(
            bits,
        ),
{
    let p = bits_to_bytes(bits);
    assert(p.len() == 8);
    crate::rlp::lemma_short_rlp_roundtrip(p, Seq::<u8>::empty());
    assert(short_rlp_encoding(p) + Seq::<u8>::empty() =~= short_rlp_encoding(p));
    crate::bitfield::lemma_bits_bytes_roundtrip(bits);
}

/// Decoding the ENR field that `SyncCommitteeSubnets::encode` writes gives back the same bits.
pub proof fn sync_committee_subnets_roundtrip(bits: Seq<bool>)
    requires
        bits.len() == 4,
    ensures
        sync_committee_field(short_rlp_encoding(bits_to_bytes(bits))) == Ok::<
            Seq<bool>,
            SubnetError,
        >(bits),
{
    let p = bits_to_bytes(bits);
    assert(p.len() == 1);
    crate::rlp::lemma_short_rlp_roundtrip(p, Seq::<u8>::empty());
    assert(short_rlp_encoding(p) + Seq::<u8>::empty() =~= short_rlp_encoding(p));
    crate::bitfield::lemma_bits_bytes_roundtrip(bits);
    let f0 = crate::bitfield::flag(bits[0], 1u8);
    let f1 = crate::bitfield::flag(bits[1], 2u8);
    let f2 = crate::bitfield::flag(bits[2], 4u8);
    let f3 = crate::bitfield::flag(bits[3], 8u8);
    let b = f0 | f1 | f2 | f3 | 0u8 | 0u8 | 0u8 | 0u8;
    assert(p[0] == b);
    assert(b & 0xf0u8 == 0) by (bit_vector)
        requires
            f0 == 0 || f0 == 1,
            f1 == 0 || f1 == 2,
            f2 == 0 || f2 == 4,
            f3 == 0 || f3 == 8,
            b == f0 | f1 | f2 | f3 | 0u8 | 0u8 | 0u8 | 0u8,
    ;
}

/// After enabling (or disabling) a subnet that is in range of a present bitfield of full
/// length, the subnet is active (or inactive), and every other subnet keeps its state.
pub proof fn switching_sets_activity(bits: Seq<bool>, id: int, other: int, limit: int, value: bool)
    requires
        bits.len() == limit,
        0 <= id < limit,
        0 <= other,
        other != id,
    ensures
        switch_result(Some(bits), id, limit) == Ok::<(), SubnetError>(()),
        activity(switched(Some(bits), id, limit, value), id, limit) == Ok::<bool, SubnetError>(
            value,
        ),
        activity(switched(Some(bits), id, limit, value), other, limit) == activity(
            Some(bits),
            other,
            limit,
        ),
{
}

/// A subnet id at or past the limit of its kind is never active and switching it leaves
/// the bitfield as it was; an absent bitfield has no active subnet and stays absent.
pub proof fn out_of_range_subnets_are_inactive(bits: Option<Seq<bool>>, id: int, limit: int, value: bool)
    ensures
        id >= limit ==> switched(bits, id, limit, value) == bits && activity(bits, id, limit)
            == Ok::<bool, SubnetError>(false) && switch_result(bits, id, limit) == Ok::<
            (),
            SubnetError,
        >(()),
        bits is None ==> switched(bits, id, limit, value) is None && activity(bits, id, limit)
            == Ok::<bool, SubnetError>(false),
{
}

/// The sync committee subnet of the member at `index` of the sync committee.
pub open spec fn sync_subnet_of(index: int) -> int {
    index % 4
}

/// Members of the sync committee are dealt to the 4 subnets in turn: member `index` is on
/// a subnet below 4, the next member is on the next subnet (wrapping to 0 after 3), and
/// members 4 apart share a subnet.
pub proof fn sync_committee_members_are_dealt_in_turn(index: nat)
    ensures
        0 <= sync_subnet_of(index as int) < 4,
        sync_subnet_of(index as int + 1) == if sync_subnet_of(index as int) == 3 {
            0
        } else {
            sync_subnet_of(index as int) + 1
        },
        sync_subnet_of(index as int + 4) == sync_subnet_of(index as int),
        index < 4 ==> sync_subnet_of(index as int) == index,
{
}

/// Compute which sync committee subnet the validator at `sync_committee_index` should be on.
pub fn compute_subnet_for_sync_committee_index(sync_committee_index: usize) -> (subnet: u8)
    ensures
        subnet as int == sync_subnet_of(sync_committee_index as int),
{
    (sync_committee_index % SYNC_COMMITTEE_SUBNET_COUNT) as u8
}

/// The sync committee subnet of each of `sync_committee_indices`, in order.
pub fn compute_subnets_for_sync_committee(sync_committee_indices: &[usize]) -> (subnets: Vec<u8>)
    ensures
        subnets@.len() == sync_committee_indices@.len(),
        forall|i: int|
            0 <= i < subnets@.len() ==> #[trigger] subnets@[i] as int == sync_subnet_of(
                sync_committee_indices@[i] as int,
            ),
{
    let mut out: Vec<u8> = Vec::new();
    let mut i: usize = 0;
    while i < sync_committee_indices.len()
        invariant
            i <= sync_committee_indices@.len(),
            out@.len() == i,
            forall|k: int|
                0 <= k < i ==> #[trigger] out@[k] as int == sync_subnet_of(
                    sync_committee_indices@[k] as int,
                ),
        decreases sync_committee_indices.len() - i,
    {
        out.push(compute_subnet_for_sync_committee_index(sync_committee_indices[i]));
        i = i + 1;
    }
    out
}

} // verus!
