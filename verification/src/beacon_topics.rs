use vstd::prelude::*;

use crate::validate::{DATA_COLUMN_SIDECAR_SUBNET_COUNT, SYNC_COMMITTEE_SUBNET_COUNT};

verus! {

/// What a topic of the beacon network carries; the subnet topics carry their subnet id.
#[derive(Clone, Copy, Debug, Hash, PartialEq, Eq, Structural)]
pub enum GossipTopicKind {
    BeaconBlock,
    AggregateAndProof,
    VoluntaryExit,
    ProposerSlashing,
    AttesterSlashing,
    SyncCommitteeContributionAndProof,
    BlsToExecutionChange,
    LightClientFinalityUpdate,
    LightClientOptimisticUpdate,
    BeaconAttestation(u64),
    SyncCommittee(u64),
    BlobSidecar(u64),
    DataColumnSidecar(u64),
}

/// A topic of the beacon network: a fork digest and a kind.
#[derive(Clone, Copy, Debug, Hash, PartialEq, Eq)]
pub struct GossipTopic {
    pub fork: [u8; 4],
    pub kind: GossipTopicKind,
}

/// The topics that carry no subnet id, in the order they are subscribed to.
pub open spec fn fixed_topic_kinds() -> Seq<GossipTopicKind> {
    seq![
        GossipTopicKind::BeaconBlock,
        GossipTopicKind::AggregateAndProof,
        GossipTopicKind::VoluntaryExit,
        GossipTopicKind::ProposerSlashing,
        GossipTopicKind::AttesterSlashing,
        GossipTopicKind::SyncCommitteeContributionAndProof,
        GossipTopicKind::BlsToExecutionChange,
        GossipTopicKind::LightClientFinalityUpdate,
        GossipTopicKind::LightClientOptimisticUpdate,
    ]
}

pub open spec fn attestation_kinds(count: nat) -> Seq<GossipTopicKind> {
    Seq::new(count, |i: int| GossipTopicKind::BeaconAttestation(i as u64))
}

pub open spec fn sync_committee_kinds(count: nat) -> Seq<GossipTopicKind> {
    Seq::new(count, |i: int| GossipTopicKind::SyncCommittee(i as u64))
}

pub open spec fn blob_sidecar_kinds(count: nat) -> Seq<GossipTopicKind> {
    Seq::new(count, |i: int| GossipTopicKind::BlobSidecar(i as u64))
}

pub open spec fn data_column_kinds(count: nat) -> Seq<GossipTopicKind> {
    Seq::new(count, |i: int| GossipTopicKind::DataColumnSidecar(i as u64))
}

/// The kinds of all topics subscribed to, in order: the fixed ones, then one per
/// attestation subnet, sync committee subnet, blob sidecar subnet and data column subnet.
pub open spec fn subscribed_kinds(attestation_subnets: nat, blob_subnets: nat) -> Seq<
    GossipTopicKind,
> {
    fixed_topic_kinds() + attestation_kinds(attestation_subnets) + sync_committee_kinds(
        SYNC_COMMITTEE_SUBNET_COUNT as nat,
    ) + blob_sidecar_kinds(blob_subnets) + data_column_kinds(
        DATA_COLUMN_SIDECAR_SUBNET_COUNT as nat,
    )
}

/// The topics subscribed to under one fork digest.
pub open spec fn subscribed_topics(fork: [u8; 4], attestation_subnets: nat, blob_subnets: nat) -> Seq<
    GossipTopic,
> {
    subscribed_kinds(attestation_subnets, blob_subnets).map_values(
        |kind: GossipTopicKind| GossipTopic { fork, kind },
    )
}

/// The subnet topics of one kind, for subnets `0..count`.
pub open spec fn subnet_kinds(which: u8, count: nat) -> Seq<GossipTopicKind> {
    Seq::new(count, |i: int| subnet_kind(which, i as u64))
}

/// Pushes the topics of one kind of subnet, for subnets `0..count`.
fn push_subnet_topics(topics: &mut Vec<GossipTopic>, fork: [u8; 4], count: u64, which: u8)
    ensures
        final(topics)@ == old(topics)@ + subnet_kinds(which, count as nat).map_values(
            |kind: GossipTopicKind| GossipTopic { fork, kind },
        ),
{
    let ghost start = topics@;
    let mut subnet: u64 = 0;
    while subnet < count
        invariant
            subnet <= count,
            topics@ == start + subnet_kinds(which, subnet as nat).map_values(
                |kind: GossipTopicKind| GossipTopic { fork, kind },
            ),
        decreases count - subnet,
    {
        let kind = if which == 0 {
            GossipTopicKind::BeaconAttestation(subnet)
        } else if which == 1 {
            GossipTopicKind::SyncCommittee(subnet)
        } else if which == 2 {
            GossipTopicKind::BlobSidecar(subnet)
        } else {
            GossipTopicKind::DataColumnSidecar(subnet)
        };
        topics.push(GossipTopic { fork, kind });
        subnet = subnet + 1;
        assert(topics@ =~= start + subnet_kinds(which, subnet as nat).map_values(
            |kind: GossipTopicKind| GossipTopic { fork, kind },
        ));
    }
}

/// The kind of a subnet topic: `which` picks attestation, sync committee, blob sidecar or
/// data column subnets.
pub open spec fn subnet_kind(which: u8, subnet: u64) -> GossipTopicKind {
    if which == 0 {
        GossipTopicKind::BeaconAttestation(subnet)
    } else if which == 1 {
        GossipTopicKind::SyncCommittee(subnet)
    } else if which == 2 {
        GossipTopicKind::BlobSidecar(subnet)
    } else {
        GossipTopicKind::DataColumnSidecar(subnet)
    }
}

/// The topics a beacon node subscribes to under `fork_digest`: the nine topics without a
/// subnet, then those of each attestation subnet, each sync committee subnet, each blob
/// sidecar subnet and each data column subnet, in subnet order.
pub fn gossip_topics(fork_digest: [u8; 4], attestation_subnet_count: u64, blob_sidecar_subnet_count: u64) -> (r: Vec<GossipTopic>)
    ensures
        r@ == subscribed_topics(
            fork_digest,
            attestation_subnet_count as nat,
            blob_sidecar_subnet_count as nat,
        ),
        r.len() == 9 + attestation_subnet_count + SYNC_COMMITTEE_SUBNET_COUNT
            + blob_sidecar_subnet_count + DATA_COLUMN_SIDECAR_SUBNET_COUNT,
        forall|i: int| 0 <= i < r.len() ==> (#[trigger] r@[i]).fork == fork_digest,
        forall|i: int, j: int| 0 <= i < j < r.len() ==> #[trigger] r@[i] != #[trigger] r@[j],
        forall|s: u64|
            s < attestation_subnet_count ==> r@.contains(
                GossipTopic { fork: fork_digest, kind: GossipTopicKind::BeaconAttestation(s) },
            ),
        forall|s: u64|
            s < SYNC_COMMITTEE_SUBNET_COUNT ==> r@.contains(
                GossipTopic { fork: fork_digest, kind: GossipTopicKind::SyncCommittee(s) },
            ),
        forall|s: u64|
            s < blob_sidecar_subnet_count ==> r@.contains(
                GossipTopic { fork: fork_digest, kind: GossipTopicKind::BlobSidecar(s) },
            ),
        forall|s: u64|
            s < DATA_COLUMN_SIDECAR_SUBNET_COUNT ==> r@.contains(
                GossipTopic { fork: fork_digest, kind: GossipTopicKind::DataColumnSidecar(s) },
            ),
{
    let fork = fork_digest;
    let mut topics: Vec<GossipTopic> = vec![
        GossipTopic { fork, kind: GossipTopicKind::BeaconBlock },
        GossipTopic { fork, kind: GossipTopicKind::AggregateAndProof },
        GossipTopic { fork, kind: GossipTopicKind::VoluntaryExit },
        GossipTopic { fork, kind: GossipTopicKind::ProposerSlashing },
        GossipTopic { fork, kind: GossipTopicKind::AttesterSlashing },
        GossipTopic { fork, kind: GossipTopicKind::SyncCommitteeContributionAndProof },
        GossipTopic { fork, kind: GossipTopicKind::BlsToExecutionChange },
        GossipTopic { fork, kind: GossipTopicKind::LightClientFinalityUpdate },
        GossipTopic { fork, kind: GossipTopicKind::LightClientOptimisticUpdate },
    ];
    let ghost a: nat = attestation_subnet_count as nat;
    let ghost b: nat = blob_sidecar_subnet_count as nat;
    let ghost wrap = |kind: GossipTopicKind| GossipTopic { fork, kind };
    assert(topics@ =~= fixed_topic_kinds().map_values(wrap));
    push_subnet_topics(&mut topics, fork, attestation_subnet_count, 0);
    push_subnet_topics(&mut topics, fork, SYNC_COMMITTEE_SUBNET_COUNT, 1);
    push_subnet_topics(&mut topics, fork, blob_sidecar_subnet_count, 2);
    push_subnet_topics(&mut topics, fork, DATA_COLUMN_SIDECAR_SUBNET_COUNT, 3);
    proof {
        assert(subnet_kinds(0, a) =~= attestation_kinds(a));
        assert(subnet_kinds(1, 4) =~= sync_committee_kinds(4));
        assert(subnet_kinds(2, b) =~= blob_sidecar_kinds(b));
        assert(subnet_kinds(3, 128) =~= data_column_kinds(128));
        lemma_map_concat(fixed_topic_kinds(), attestation_kinds(a), wrap);
        lemma_map_concat(
            fixed_topic_kinds() + attestation_kinds(a),
            sync_committee_kinds(4),
            wrap,
        );
        lemma_map_concat(
            fixed_topic_kinds() + attestation_kinds(a) + sync_committee_kinds(4),
            blob_sidecar_kinds(b),
            wrap,
        );
        lemma_map_concat(
            fixed_topic_kinds() + attestation_kinds(a) + sync_committee_kinds(4)
                + blob_sidecar_kinds(b),
            data_column_kinds(128),
            wrap,
        );
        assert(topics@ =~= subscribed_topics(fork_digest, a, b));
        lemma_subscribed_topics_facts(fork_digest, a, b);
    }
    topics
}

proof fn lemma_map_concat(s: Seq<GossipTopicKind>, t: Seq<GossipTopicKind>, f: spec_fn(GossipTopicKind) -> GossipTopic)
    ensures
        (s + t).map_values(f) =~= s.map_values(f) + t.map_values(f),
{
}

/// The subscribed topics share the fork digest, are distinct, and hold each subnet topic.
proof fn lemma_subscribed_topics_facts(fork: [u8; 4], a: nat, b: nat)
    requires
        a <= u64::MAX,
        b <= u64::MAX,
    ensures
        ({
            let r = subscribed_topics(fork, a, b);
            &&& r.len() == 9 + a + 4 + b + 128
            &&& forall|i: int| 0 <= i < r.len() ==> (#[trigger] r[i]).fork == fork
            &&& forall|i: int, j: int| 0 <= i < j < r.len() ==> #[trigger] r[i] != #[trigger] r[j]
            &&& forall|s: u64|
                s < a ==> r.contains(
                    GossipTopic { fork, kind: GossipTopicKind::BeaconAttestation(s) },
                )
            &&& forall|s: u64|
                s < 4 ==> r.contains(GossipTopic { fork, kind: GossipTopicKind::SyncCommittee(s) })
            &&& forall|s: u64|
                s < b ==> r.contains(GossipTopic { fork, kind: GossipTopicKind::BlobSidecar(s) })
            &&& forall|s: u64|
                s < 128 ==> r.contains(
                    GossipTopic { fork, kind: GossipTopicKind::DataColumnSidecar(s) },
                )
        }),
{
    let k = subscribed_kinds(a, b);
    let r = subscribed_topics(fork, a, b);
    // Offsets of the segments within the sequence.
    let o1: int = 9;
    let o2: int = 9 + a as int;
    let o3: int = 9 + a as int + 4;
    let o4: int = 9 + a as int + 4 + b as int;
    assert(k.len() == 9 + a + 4 + b + 128);
    assert forall|i: int| 0 <= i < k.len() implies #[trigger] k[i] == (if i < o1 {
        fixed_topic_kinds()[i]
    } else if i < o2 {
        GossipTopicKind::BeaconAttestation((i - o1) as u64)
    } else if i < o3 {
        GossipTopicKind::SyncCommittee((i - o2) as u64)
    } else if i < o4 {
        GossipTopicKind::BlobSidecar((i - o3) as u64)
    } else {
        GossipTopicKind::DataColumnSidecar((i - o4) as u64)
    }) by {}
    assert forall|i: int, j: int| 0 <= i < j < r.len() implies #[trigger] r[i] != #[trigger] r[j] by {
        assert(r[i].kind == k[i]);
        assert(r[j].kind == k[j]);
    }
    assert forall|s: u64| s < a implies r.contains(
        GossipTopic { fork, kind: GossipTopicKind::BeaconAttestation(s) },
    ) by {
        assert(r[o1 + s] == GossipTopic { fork, kind: k[o1 + s] });
    }
    assert forall|s: u64| s < 4 implies r.contains(
        GossipTopic { fork, kind: GossipTopicKind::SyncCommittee(s) },
    ) by {
        assert(r[o2 + s] == GossipTopic { fork, kind: k[o2 + s] });
    }
    assert forall|s: u64| s < b implies r.contains(
        GossipTopic { fork, kind: GossipTopicKind::BlobSidecar(s) },
    ) by {
        assert(r[o3 + s] == GossipTopic { fork, kind: k[o3 + s] });
    }
    assert forall|s: u64| s < 128 implies r.contains(
        GossipTopic { fork, kind: GossipTopicKind::DataColumnSidecar(s) },
    ) by {
        assert(r[o4 + s] == GossipTopic { fork, kind: k[o4 + s] });
    }
}

} // verus!
