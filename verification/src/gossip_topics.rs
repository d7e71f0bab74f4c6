use vstd::prelude::*;
use vstd::string::*;

use crate::text::{decimal, hex_chars, hex_encode, push_decimal};

verus! {

pub const TOPIC_PREFIX: &'static str = "eth2";

pub const ENCODING_POSTFIX: &'static str = "ssz_snappy";

pub const BEACON_BLOCK_TOPIC: &'static str = "beacon_block";

pub const BEACON_AGGREGATE_AND_PROOF_TOPIC: &'static str = "beacon_aggregate_and_proof";

pub const BEACON_ATTESTATION_PREFIX: &'static str = "beacon_attestation_";

pub const VOLUNTARY_EXIT_TOPIC: &'static str = "voluntary_exit";

pub const PROPOSER_SLASHING_TOPIC: &'static str = "proposer_slashing";

pub const ATTESTER_SLASHING_TOPIC: &'static str = "attester_slashing";

/// What a beacon gossip topic carries.
#[derive(Clone, Copy, Debug, Hash, PartialEq, Eq, Structural)]
pub enum GossipTopicKind {
    BeaconBlock,
    BeaconAggregateAndProof,
    BeaconAttestation(u64),
    VoluntaryExit,
    ProposerSlashing,
    AttesterSlashing,
}

/// A beacon gossip topic: a fork digest and a kind.
#[derive(Clone, Copy, Debug, Hash, PartialEq, Eq)]
pub struct GossipTopic {
    pub fork: [u8; 4],
    pub kind: GossipTopicKind,
}

/// The topic name of a kind.
pub open spec fn beacon_kind_name(kind: GossipTopicKind) -> Seq<char> {
    match kind {
        GossipTopicKind::BeaconBlock => BEACON_BLOCK_TOPIC@,
        GossipTopicKind::BeaconAggregateAndProof => BEACON_AGGREGATE_AND_PROOF_TOPIC@,
        GossipTopicKind::BeaconAttestation(subnet) => BEACON_ATTESTATION_PREFIX@ + decimal(
            subnet as nat,
        ),
        GossipTopicKind::VoluntaryExit => VOLUNTARY_EXIT_TOPIC@,
        GossipTopicKind::ProposerSlashing => PROPOSER_SLASHING_TOPIC@,
        GossipTopicKind::AttesterSlashing => ATTESTER_SLASHING_TOPIC@,
    }
}

/// The topic string `/eth2/{fork in lowercase hex}/{kind}/ssz_snappy`.
pub open spec fn beacon_topic_string(fork: Seq<u8>, kind: GossipTopicKind) -> Seq<char> {
    "/"@ + TOPIC_PREFIX@ + "/"@ + hex_chars(fork) + "/"@ + ENCODING_POSTFIX@ + "/"@
        + beacon_kind_name(kind)
}

impl GossipTopicKind {
    /// The topic name of this kind.
    pub fn to_string(&self) -> (r: String)
        ensures
            r@ == beacon_kind_name(*self),
    {
        match self {
            GossipTopicKind::BeaconBlock => String::from_str(BEACON_BLOCK_TOPIC),
            GossipTopicKind::BeaconAggregateAndProof => String::from_str(
                BEACON_AGGREGATE_AND_PROOF_TOPIC,
            ),
            GossipTopicKind::BeaconAttestation(subnet) => {
                let mut s = String::from_str(BEACON_ATTESTATION_PREFIX);
                push_decimal(&mut s, *subnet);
                s
            },
            GossipTopicKind::VoluntaryExit => String::from_str(VOLUNTARY_EXIT_TOPIC),
            GossipTopicKind::ProposerSlashing => String::from_str(PROPOSER_SLASHING_TOPIC),
            GossipTopicKind::AttesterSlashing => String::from_str(ATTESTER_SLASHING_TOPIC),
        }
    }
}

impl GossipTopic {
    /// The topic string.
    pub fn to_string(&self) -> (r: String)
        ensures
            r@ == beacon_topic_string(self.fork@, self.kind),
    {
        let mut s = String::from_str("/");
        s.append(TOPIC_PREFIX);
        s.append("/");
        let fork_hex = hex_encode(&self.fork);
        s.append(fork_hex.as_str());
        s.append("/");
        s.append(ENCODING_POSTFIX);
        s.append("/");
        let name = self.kind.to_string();
        s.append(name.as_str());
        assert(s@ =~= beacon_topic_string(self.fork@, self.kind));
        s
    }
}

} // verus!
