use vstd::prelude::*;

use crate::bytes::copy_bytes;
use crate::rlp::{opt_vec_view, rlp_decode_u16, rlp_u16_decoding};

verus! {

/// The ENR key of the QUIC port.
pub const QUIC_ENR_KEY: &'static str = "quic";

/// The raw values of the ENR entries of a peer that this library reads (absent when
/// the ENR lacks the key); each is the RLP encoding that the ENR stores.
#[derive(Debug)]
pub struct EnrFields {
    /// Value under `attnets`.
    pub attnets: Option<Vec<u8>>,
    /// Value under `syncnets`.
    pub syncnets: Option<Vec<u8>>,
    /// Value under `quic`.
    pub quic: Option<Vec<u8>>,
}

/// The entries as plain values: `attnets`, `syncnets` and `quic`, each absent or its bytes.
pub open spec fn enr_fields_view(e: EnrFields) -> (Option<Seq<u8>>, Option<Seq<u8>>, Option<Seq<u8>>) {
    (opt_vec_view(e.attnets), opt_vec_view(e.syncnets), opt_vec_view(e.quic))
}

fn copy_entry(a: &Option<Vec<u8>>) -> (r: Option<Vec<u8>>)
    ensures
        opt_vec_view(r) == opt_vec_view(*a),
{
    match a {
        Some(v) => Some(copy_bytes(v)),
        None => None,
    }
}

impl EnrFields {
    /// A copy of these entries.
    pub fn duplicate(&self) -> (r: EnrFields)
        ensures
            enr_fields_view(r) == enr_fields_view(*self),
    {
        EnrFields {
            attnets: copy_entry(&self.attnets),
            syncnets: copy_entry(&self.syncnets),
            quic: copy_entry(&self.quic),
        }
    }
}

/// The QUIC port that an ENR announces: its `quic` entry read as an RLP `u16`,
/// `None` where the entry is absent or does not decode.
pub open spec fn spec_quic_port(quic: Option<Seq<u8>>) -> Option<u16> {
    match quic {
        Some(raw) => rlp_u16_decoding(raw),
        None => None,
    }
}

/// The QUIC port of the ENR, if it is defined.
pub fn quic_from_enr(enr: &EnrFields) -> (r: Option<u16>)
    ensures
        r == spec_quic_port(
            match enr.quic {
                Some(v) => Some(v@),
                None => None,
            },
        ),
{
    match &enr.quic {
        Some(raw) => rlp_decode_u16(raw.as_slice()),
        None => None,
    }
}

} // verus!
