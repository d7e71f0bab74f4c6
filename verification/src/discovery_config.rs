use vstd::prelude::*;

use rand::Rng;

use crate::enr_fields::{enr_fields_view, EnrFields};
use crate::gossip_config::SLOTS_PER_EPOCH;
use crate::lean_state::lemma_filter_take_step;
use crate::subnet::{
    decoded_attnets, decoded_syncnets, set_bit, subnet_id_of, subnet_predicate,
    subnet_test_passes_when_a_requested_subnet_is_enabled, AttestationSubnets, subnets_match, switch_result,
    switched, Subnet, SubnetError, Subnets, SYNC_COMMITTEE_SUBNET_COUNT,
};

verus! {

/// What a discovery query looks for: any peers, or peers of the given attestation or
/// sync committee subnets.
#[derive(Clone, Debug, PartialEq, Eq)]
pub enum QueryType {
    Peers,
    AttestationSubnetPeers(Vec<u64>),
    SyncCommitteeSubnetPeers(Vec<u64>),
}

/// The discovery settings that this library reads: the ports, whether discovery is
/// off, and the subnets that the local ENR announces.
#[derive(Debug)]
pub struct NetworkConfig {
    pub socket_port: u16,
    pub discovery_port: u16,
    pub disable_discovery: bool,
    pub subnets: Subnets,
}

/// The epoch at which to join a sync committee subnet, `offset` epochs before the
/// next sync committee period starts, or at once when that is no later than
/// `current_epoch + offset`.
pub open spec fn spec_join_epoch(current_epoch: u64, next_period_start: u64, offset: u64) -> u64 {
    if next_period_start <= current_epoch + offset {
        current_epoch
    } else {
        (next_period_start - offset) as u64
    }
}

/// `rand::rngs::ThreadRng::gen_range` over `low..=high`: a number drawn at random
/// from that range. Nothing but the range is stated of it.
#[verifier::external_body]
fn random_in_range(low: u64, high: u64) -> (r: u64)
    requires
        low <= high,
    ensures
        low <= r <= high,
{
    let mut rng = rand::rngs::ThreadRng::default();
    rng.gen_range(low..=high)
}

/// The join epoch is never before the current epoch and is `offset` epochs before the next
/// period starts, unless that is already past, in which case it is the current epoch: it
/// is the later of the current epoch and `next_period_start - offset`.
pub proof fn join_epoch_is_offset_before_the_next_period(
    current_epoch: u64,
    next_period_start: u64,
    offset: u64,
)
    ensures
        spec_join_epoch(current_epoch, next_period_start, offset) >= current_epoch,
        spec_join_epoch(current_epoch, next_period_start, offset) == if next_period_start - offset
            > current_epoch {
            next_period_start - offset
        } else {
            current_epoch as int
        },
{
}

/// The join epoch for a given offset.
pub fn sync_subnet_join_epoch(current_epoch: u64, next_period_start: u64, offset: u64) -> (r: u64)
    requires
        current_epoch + offset <= u64::MAX,
    ensures
        r == spec_join_epoch(current_epoch, next_period_start, offset),
{
    if next_period_start <= current_epoch + offset {
        current_epoch
    } else {
        next_period_start - offset
    }
}

impl NetworkConfig {
    /// The default settings: ports 9000, discovery on, and both subnet bitfields present
    /// with attestation subnets 0 and 1 enabled.
    pub fn default_config() -> (r: NetworkConfig)
        ensures
            r.socket_port == 9000,
            r.discovery_port == 9000,
            !r.disable_discovery,
            r.subnets.attestation() == Some(Seq::new(64, |i: int| i < 2)),
            r.subnets.sync_committee() == Some(Seq::new(4, |i: int| false)),
    {
        let mut subnets = Subnets::new();
        let _ = subnets.enable_subnet(Subnet::Attestation(0));
        let _ = subnets.enable_subnet(Subnet::Attestation(1));
        proof {
            let zeros = Seq::new(64, |i: int| false);
            assert(set_bit(set_bit(zeros, 0, true), 1, true) =~= Seq::new(64, |i: int| i < 2));
        }
        NetworkConfig { socket_port: 9000, discovery_port: 9000, disable_discovery: false, subnets }
    }

    /// Subscribes to sync committee subnet `subnet_id`.
    pub fn subscribe_to_sync_committee_subnet(&mut self, subnet_id: u8) -> (r: Result<(), SubnetError>)
        ensures
            r == switch_result(old(self).subnets.sync_committee(), subnet_id as int, 4),
            final(self).subnets.sync_committee() == switched(
                old(self).subnets.sync_committee(),
                subnet_id as int,
                4,
                true,
            ),
            final(self).subnets.attestation() == old(self).subnets.attestation(),
            final(self).socket_port == old(self).socket_port,
            final(self).discovery_port == old(self).discovery_port,
            final(self).disable_discovery == old(self).disable_discovery,
    {
        self.subnets.enable_subnet(Subnet::SyncCommittee(subnet_id))
    }

    /// Unsubscribes from sync committee subnet `subnet_id`.
    pub fn unsubscribe_from_sync_committee_subnet(&mut self, subnet_id: u8) -> (r: Result<
        (),
        SubnetError,
    >)
        ensures
            r == switch_result(old(self).subnets.sync_committee(), subnet_id as int, 4),
            final(self).subnets.sync_committee() == switched(
                old(self).subnets.sync_committee(),
                subnet_id as int,
                4,
                false,
            ),
            final(self).subnets.attestation() == old(self).subnets.attestation(),
            final(self).socket_port == old(self).socket_port,
            final(self).discovery_port == old(self).discovery_port,
            final(self).disable_discovery == old(self).disable_discovery,
    {
        self.subnets.disable_subnet(Subnet::SyncCommittee(subnet_id))
    }

    /// A random number of epochs, from 1 to the sync committee subnet count, to join a
    /// sync committee subnet before the next period starts.
    pub fn calculate_sync_subnet_join_epoch_offset(&self) -> (r: u64)
        ensures
            1 <= r <= SYNC_COMMITTEE_SUBNET_COUNT,
    {
        random_in_range(1, SYNC_COMMITTEE_SUBNET_COUNT as u64)
    }

    /// The epoch at which to join a sync committee subnet, for a random offset.
    pub fn calculate_sync_subnet_join_epoch(&self, current_epoch: u64, next_period_start: u64) -> (r: u64)
        requires
            current_epoch + SYNC_COMMITTEE_SUBNET_COUNT <= u64::MAX,
        ensures
            exists|offset: u64|
                1 <= offset <= SYNC_COMMITTEE_SUBNET_COUNT && r == spec_join_epoch(
                    current_epoch,
                    next_period_start,
                    offset,
                ),
    {
        let offset = self.calculate_sync_subnet_join_epoch_offset();
        sync_subnet_join_epoch(current_epoch, next_period_start, offset)
    }
}

// ---------------------------------------------------------------------------
// Answers to discovery queries
// ---------------------------------------------------------------------------

/// The subnets that a subnet query asks for, where every id names a subnet of its kind
/// (attestation ids below 64, sync committee ids below 4); `None` where one does not,
/// which no peer then serves. A query for any peers asks for none in particular.
pub open spec fn query_subnets(query: QueryType) -> Option<Seq<Subnet>> {
    match query {
        QueryType::Peers => Some(Seq::empty()),
        QueryType::AttestationSubnetPeers(ids) => if forall|i: int|
            0 <= i < ids@.len() ==> #[trigger] ids@[i] < 64 {
            Some(ids@.map_values(|id: u64| Subnet::Attestation(id as u8)))
        } else {
            None
        },
        QueryType::SyncCommitteeSubnetPeers(ids) => if forall|i: int|
            0 <= i < ids@.len() ==> #[trigger] ids@[i] < 4 {
            Some(ids@.map_values(|id: u64| Subnet::SyncCommittee(id as u8)))
        } else {
            None
        },
    }
}

/// Whether a found peer, by the view of its ENR entries, answers `query`: it serves one
/// of the subnets asked for of each kind, as `subnet_predicate` tests it.
pub open spec fn answers_query(
    query: QueryType,
    peer: (Option<Seq<u8>>, Option<Seq<u8>>, Option<Seq<u8>>),
) -> bool {
    match query_subnets(query) {
        Some(subnets) => subnets_match(subnets, decoded_attnets(peer.0), decoded_syncnets(peer.1)),
        None => false,
    }
}

/// A query for any peers is answered by every peer. An attestation subnet query is
/// answered by no peer when it names an id of 64 or more; otherwise, if it names any,
/// exactly by the peers whose attestation bitfield decodes and enables one of the ids
/// named; a sync committee subnet query likewise with the bound 4 and the sync committee
/// bitfield.
pub proof fn peers_answer_a_query_by_their_subnets(
    query: QueryType,
    peer: (Option<Seq<u8>>, Option<Seq<u8>>, Option<Seq<u8>>),
)
    ensures
        query is Peers ==> answers_query(query, peer),
        query matches QueryType::AttestationSubnetPeers(ids) ==> {
            &&& (exists|i: int| 0 <= i < ids@.len() && #[trigger] ids@[i] >= 64) ==> !answers_query(
                query,
                peer,
            )
            &&& (ids@.len() > 0 && forall|i: int| 0 <= i < ids@.len() ==> #[trigger] ids@[i] < 64)
                ==> (answers_query(query, peer) <==> (decoded_attnets(peer.0) matches Some(bits)
                && exists|i: int| 0 <= i < ids@.len() && bits[#[trigger] ids@[i] as int]))
        },
        query matches QueryType::SyncCommitteeSubnetPeers(ids) ==> {
            &&& (exists|i: int| 0 <= i < ids@.len() && #[trigger] ids@[i] >= 4) ==> !answers_query(
                query,
                peer,
            )
            &&& (ids@.len() > 0 && forall|i: int| 0 <= i < ids@.len() ==> #[trigger] ids@[i] < 4)
                ==> (answers_query(query, peer) <==> (decoded_syncnets(peer.1) matches Some(bits)
                && exists|i: int| 0 <= i < ids@.len() && bits[#[trigger] ids@[i] as int]))
        },
{
    match query {
        QueryType::Peers => {},
        QueryType::AttestationSubnetPeers(ids) => {
            if ids@.len() > 0 && forall|i: int| 0 <= i < ids@.len() ==> #[trigger] ids@[i] < 64 {
                let subnets = ids@.map_values(|id: u64| Subnet::Attestation(id as u8));
                assert forall|i: int| 0 <= i < subnets.len() implies (#[trigger] subnets[i]) is Attestation
                    && subnet_id_of(subnets[i]) < 64 && subnet_id_of(subnets[i]) == ids@[i] by {
                    assert(ids@[i] < 64);
                }
                subnet_test_passes_when_a_requested_subnet_is_enabled(
                    subnets,
                    decoded_attnets(peer.0),
                    decoded_syncnets(peer.1),
                );
                if let Some(bits) = decoded_attnets(peer.0) {
                    if exists|i: int| 0 <= i < ids@.len() && bits[#[trigger] ids@[i] as int] {
                        let i = choose|i: int| 0 <= i < ids@.len() && bits[#[trigger] ids@[i] as int];
                        assert(bits[subnet_id_of(subnets[i])]);
                    }
                    if exists|i: int|
                        0 <= i < subnets.len() && bits[subnet_id_of(#[trigger] subnets[i])] {
                        let i = choose|i: int|
                            0 <= i < subnets.len() && bits[subnet_id_of(#[trigger] subnets[i])];
                        assert(bits[ids@[i] as int]);
                    }
                }
            }
        },
        QueryType::SyncCommitteeSubnetPeers(ids) => {
            if ids@.len() > 0 && forall|i: int| 0 <= i < ids@.len() ==> #[trigger] ids@[i] < 4 {
                let subnets = ids@.map_values(|id: u64| Subnet::SyncCommittee(id as u8));
                assert forall|i: int| 0 <= i < subnets.len() implies (#[trigger] subnets[i]) is SyncCommittee
                    && subnet_id_of(subnets[i]) < 4 && subnet_id_of(subnets[i]) == ids@[i] by {
                    assert(ids@[i] < 4);
                }
                subnet_test_passes_when_a_requested_subnet_is_enabled(
                    subnets,
                    decoded_attnets(peer.0),
                    decoded_syncnets(peer.1),
                );
                if let Some(bits) = decoded_syncnets(peer.1) {
                    if exists|i: int| 0 <= i < ids@.len() && bits[#[trigger] ids@[i] as int] {
                        let i = choose|i: int| 0 <= i < ids@.len() && bits[#[trigger] ids@[i] as int];
                        assert(bits[subnet_id_of(subnets[i])]);
                    }
                    if exists|i: int|
                        0 <= i < subnets.len() && bits[subnet_id_of(#[trigger] subnets[i])] {
                        let i = choose|i: int|
                            0 <= i < subnets.len() && bits[subnet_id_of(#[trigger] subnets[i])];
                        assert(bits[ids@[i] as int]);
                    }
                }
            }
        },
    }
}

/// What a finished discovery query yields: nothing where it failed; every peer found
/// for a query of any peers; else the peers found that serve the subnets asked for, in
/// the order found.
pub fn query_result(query: &QueryType, found: Result<Vec<EnrFields>, ()>) -> (r: Option<
    Vec<EnrFields>,
>)
    ensures
        found is Err ==> r is None,
        found matches Ok(peers) ==> (*query is Peers ==> r == Some(peers)),
        found matches Ok(peers) ==> (r matches Some(kept) && kept@.map_values(
            |e: EnrFields| enr_fields_view(e),
        ) == peers@.map_values(|e: EnrFields| enr_fields_view(e)).filter(
            |v: (Option<Seq<u8>>, Option<Seq<u8>>, Option<Seq<u8>>)| answers_query(*query, v),
        )),
{
    let peers = match found {
        Ok(p) => p,
        Err(_) => {
            return None;
        },
    };
    let ghost views = peers@.map_values(|e: EnrFields| enr_fields_view(e));
    let ghost pred = |v: (Option<Seq<u8>>, Option<Seq<u8>>, Option<Seq<u8>>)|
        answers_query(*query, v);
    let subnets: Option<Vec<Subnet>> = match query {
        QueryType::Peers => {
            proof {
                assert forall|k: int| 0 <= k < views.len() implies #[trigger] pred(views[k]) by {}
                assert(views.filter(pred) =~= views) by {
                    lemma_filter_keeps_all(views, pred);
                }
            }
            return Some(peers);
        },
        QueryType::AttestationSubnetPeers(ids) => subnets_of_ids(ids, 64, true),
        QueryType::SyncCommitteeSubnetPeers(ids) => subnets_of_ids(ids, 4, false),
    };
    let mut kept: Vec<EnrFields> = Vec::new();
    let predicate = match subnets {
        Some(list) => subnet_predicate(list),
        None => {
            proof {
                assert forall|k: int| 0 <= k < views.len() implies !(#[trigger] pred(views[k])) by {}
                lemma_filter_keeps_none(views, pred);
            }
            assert(kept@.map_values(|e: EnrFields| enr_fields_view(e)) =~= views.filter(pred));
            return Some(kept);
        },
    };
    let mut i: usize = 0;
    while i < peers.len()
        invariant
            i <= peers.len(),
            views == peers@.map_values(|e: EnrFields| enr_fields_view(e)),
            pred == (|v: (Option<Seq<u8>>, Option<Seq<u8>>, Option<Seq<u8>>)|
                answers_query(*query, v)),
            query_subnets(*query) == Some(predicate.subnets@),
            kept@.map_values(|e: EnrFields| enr_fields_view(e)) == views.take(i as int).filter(pred),
        decreases peers.len() - i,
    {
        proof {
            lemma_filter_take_step(views, i as int, pred);
        }
        if predicate.matches(&peers[i]) {
            let copy = peers[i].duplicate();
            let ghost before = kept@;
            kept.push(copy);
            assert(kept@.map_values(|e: EnrFields| enr_fields_view(e)) =~= before.map_values(
                |e: EnrFields| enr_fields_view(e),
            ).push(views[i as int]));
        }
        i = i + 1;
    }
    assert(views.take(i as int) =~= views);
    Some(kept)
}

/// The subnets of kind `attestation` (else sync committee) that `ids` name, or `None`
/// where an id is not below `bound`.
fn subnets_of_ids(ids: &Vec<u64>, bound: u64, attestation: bool) -> (r: Option<Vec<Subnet>>)
    requires
        bound == 64 || bound == 4,
    ensures
        r matches Some(list) ==> (forall|i: int| 0 <= i < ids@.len() ==> #[trigger] ids@[i] < bound)
            && list@ == ids@.map_values(
            |id: u64|
                if attestation {
                    Subnet::Attestation(id as u8)
                } else {
                    Subnet::SyncCommittee(id as u8)
                },
        ),
        r is None ==> exists|i: int| 0 <= i < ids@.len() && #[trigger] ids@[i] >= bound,
{
    let mut list: Vec<Subnet> = Vec::new();
    let mut i: usize = 0;
    while i < ids.len()
        invariant
            i <= ids.len(),
            bound == 64 || bound == 4,
            forall|j: int| 0 <= j < i ==> #[trigger] ids@[j] < bound,
            list@ == ids@.take(i as int).map_values(
                |id: u64|
                    if attestation {
                        Subnet::Attestation(id as u8)
                    } else {
                        Subnet::SyncCommittee(id as u8)
                    },
            ),
        decreases ids.len() - i,
    {
        let id = ids[i];
        if id >= bound {
            return None;
        }
        let subnet = if attestation {
            Subnet::Attestation(id as u8)
        } else {
            Subnet::SyncCommittee(id as u8)
        };
        list.push(subnet);
        i = i + 1;
        assert(list@ =~= ids@.take(i as int).map_values(
            |id: u64|
                if attestation {
                    Subnet::Attestation(id as u8)
                } else {
                    Subnet::SyncCommittee(id as u8)
                },
        ));
    }
    assert(ids@.take(i as int) =~= ids@);
    Some(list)
}

proof fn lemma_filter_keeps_all<A>(s: Seq<A>, pred: spec_fn(A) -> bool)
    requires
        forall|k: int| 0 <= k < s.len() ==> #[trigger] pred(s[k]),
    ensures
        s.filter(pred) == s,
    decreases s.len(),
{
    reveal(Seq::filter);
    if s.len() > 0 {
        lemma_filter_keeps_all(s.drop_last(), pred);
        assert(s.drop_last().push(s.last()) =~= s);
        assert(pred(s[s.len() - 1]));
    }
}

proof fn lemma_filter_keeps_none<A>(s: Seq<A>, pred: spec_fn(A) -> bool)
    requires
        forall|k: int| 0 <= k < s.len() ==> !#[trigger] pred(s[k]),
    ensures
        s.filter(pred) == Seq::<A>::empty(),
    decreases s.len(),
{
    reveal(Seq::filter);
    if s.len() > 0 {
        lemma_filter_keeps_none(s.drop_last(), pred);
        assert(!pred(s[s.len() - 1]));
    }
}

// ---------------------------------------------------------------------------
// Rotating attestation subnet subscriptions
// ---------------------------------------------------------------------------

/// The number of epochs an attestation subnet subscription lasts.
pub const EPOCHS_PER_SUBNET_SUBSCRIPTION: u64 = 256;

/// The attestation subnet subscriptions of the local node: the last slot checked for a
/// rotation, the epoch of the last subscription, and the subnets subscribed to.
#[derive(Debug)]
pub struct SubnetRotation {
    pub last_checked_slot: u64,
    pub subscription_epoch: u64,
    pub current: AttestationSubnets,
}

/// The epoch of a slot.
pub open spec fn epoch_at_slot(slot: u64) -> u64 {
    (slot / SLOTS_PER_EPOCH) as u64
}

/// `a - b`, or zero where `b` is larger.
pub open spec fn saturating_sub(a: u64, b: u64) -> u64 {
    if a >= b {
        (a - b) as u64
    } else {
        0
    }
}

/// The attestation bitfield that enables exactly the subnets `ids`.
pub open spec fn subnet_bits(ids: Seq<u64>) -> Seq<bool> {
    Seq::new(64, |i: int| ids.contains(i as u64))
}

/// Whether the subscriptions are to be computed anew at `current_slot`, after the last
/// check at `last_checked_slot` and the last subscription at `subscription_epoch`.
pub open spec fn rotation_is_due(last_checked_slot: u64, subscription_epoch: u64, current_slot: u64) -> bool {
    last_checked_slot < current_slot && saturating_sub(epoch_at_slot(current_slot), subscription_epoch)
        >= EPOCHS_PER_SUBNET_SUBSCRIPTION
}

/// A rotation is due only at a slot later than the last one checked, and there exactly
/// when at least 256 epochs (of 32 slots) have passed since the last subscription. The
/// bitfield of a set of subnet ids has 64 bits, bit `i` set exactly when `i` is among the
/// ids.
pub proof fn rotation_due_after_a_full_subscription(
    last_checked_slot: u64,
    subscription_epoch: u64,
    current_slot: u64,
    ids: Seq<u64>,
)
    ensures
        rotation_is_due(last_checked_slot, subscription_epoch, current_slot) <==> (last_checked_slot
            < current_slot && current_slot / 32 >= subscription_epoch + 256),
        subnet_bits(ids).len() == 64,
        forall|i: int|
            0 <= i < 64 ==> (#[trigger] subnet_bits(ids)[i] <==> exists|j: int|
                0 <= j < ids.len() && ids[j] == i),
{
    assert forall|i: int| 0 <= i < 64 implies (#[trigger] subnet_bits(ids)[i] <==> exists|j: int|
        0 <= j < ids.len() && ids[j] == i) by {
        if subnet_bits(ids)[i] {
            let j = choose|j: int| 0 <= j < ids.len() && ids[j] == i as u64;
            assert(ids[j] == i);
        }
        if exists|j: int| 0 <= j < ids.len() && ids[j] == i {
            let j = choose|j: int| 0 <= j < ids.len() && ids[j] == i;
            assert(ids[j] == i as u64);
            assert(ids.contains(i as u64));
        }
    }
}

impl SubnetRotation {
    /// Whether the subscriptions are to be computed anew at `current_slot`: only at a slot
    /// later than the last one checked, which it then records, and only once the last
    /// subscription is `EPOCHS_PER_SUBNET_SUBSCRIPTION` epochs old.
    pub fn rotation_due(&mut self, current_slot: u64) -> (r: bool)
        ensures
            r == rotation_is_due(old(self).last_checked_slot, old(self).subscription_epoch, current_slot),
            final(self).last_checked_slot == if old(self).last_checked_slot < current_slot {
                current_slot
            } else {
                old(self).last_checked_slot
            },
            final(self).subscription_epoch == old(self).subscription_epoch,
            final(self).current == old(self).current,
    {
        let current_epoch = current_slot / SLOTS_PER_EPOCH;
        if current_slot <= self.last_checked_slot {
            return false;
        }
        self.last_checked_slot = current_slot;
        let epochs_since_subscription = if current_epoch >= self.subscription_epoch {
            current_epoch - self.subscription_epoch
        } else {
            0
        };
        epochs_since_subscription >= EPOCHS_PER_SUBNET_SUBSCRIPTION
    }

    /// The subscriptions to announce for the subnets `new_subnets` computed at
    /// `current_slot`: an id of 64 or more is out of bounds; subnets equal to the current
    /// ones renew the subscription at the slot's epoch and give `None`; other subnets are
    /// given back, to be announced and then committed.
    pub fn rotation_target(&mut self, current_slot: u64, new_subnets: &Vec<u64>) -> (r: Result<
        Option<AttestationSubnets>,
        SubnetError,
    >)
        requires
            old(self).current.wf(),
        ensures
            (exists|i: int| 0 <= i < new_subnets@.len() && #[trigger] new_subnets@[i] >= 64) ==> (r
                == Err::<Option<AttestationSubnets>, SubnetError>(SubnetError::OutOfBounds)
                && *final(self) == *old(self)),
            (forall|i: int| 0 <= i < new_subnets@.len() ==> #[trigger] new_subnets@[i] < 64) ==> {
                if subnet_bits(new_subnets@) == old(self).current.bits() {
                    &&& r matches Ok(None)
                    &&& final(self).subscription_epoch == epoch_at_slot(current_slot)
                    &&& final(self).last_checked_slot == old(self).last_checked_slot
                    &&& final(self).current == old(self).current
                } else {
                    &&& r matches Ok(Some(s)) && s.wf() && s.bits() == subnet_bits(new_subnets@)
                    &&& *final(self) == *old(self)
                }
            },
    {
        let mut target = AttestationSubnets::new();
        let mut k: usize = 0;
        while k < new_subnets.len()
            invariant
                k <= new_subnets.len(),
                target.bits() == Seq::new(64, |i: int| new_subnets@.take(k as int).contains(i as u64)),
                forall|j: int| 0 <= j < k ==> #[trigger] new_subnets@[j] < 64,
            decreases new_subnets.len() - k,
        {
            let id = new_subnets[k];
            if id >= 64 {
                return Err(SubnetError::OutOfBounds);
            }
            let ghost before = target.bits();
            let _ = target.set(id as usize, true);
            proof {
                let taken = new_subnets@.take(k as int);
                assert(new_subnets@.take(k + 1) =~= taken.push(id));
                assert forall|i: int| 0 <= i < 64 implies #[trigger] target.bits()[i] == taken.push(
                    id,
                ).contains(i as u64) by {
                    if taken.push(id).contains(i as u64) && i as u64 != id {
                        let w = choose|w: int| 0 <= w < taken.len() + 1 && taken.push(id)[w] == i as u64;
                        assert(taken[w] == i as u64);
                    }
                    if taken.contains(i as u64) {
                        let w = choose|w: int| 0 <= w < taken.len() && taken[w] == i as u64;
                        assert(taken.push(id)[w] == i as u64);
                    }
                    if i as u64 == id {
                        assert(taken.push(id)[taken.len() as int] == id);
                    }
                }
                assert(target.bits() =~= Seq::new(
                    64,
                    |i: int| new_subnets@.take(k + 1).contains(i as u64),
                ));
            }
            k = k + 1;
        }
        proof {
            assert(new_subnets@.take(k as int) =~= new_subnets@);
        }
        if same_bits(&target, &self.current) {
            self.subscription_epoch = current_slot / SLOTS_PER_EPOCH;
            return Ok(None);
        }
        Ok(Some(target))
    }

    /// Records `subnets`, announced at `current_slot`, as the current subscriptions.
    pub fn commit_rotation(&mut self, subnets: AttestationSubnets, current_slot: u64)
        ensures
            final(self).current == subnets,
            final(self).subscription_epoch == epoch_at_slot(current_slot),
            final(self).last_checked_slot == old(self).last_checked_slot,
    {
        self.current = subnets;
        self.subscription_epoch = current_slot / SLOTS_PER_EPOCH;
    }
}

/// Whether two well-formed attestation bitfields hold the same bits.
fn same_bits(a: &AttestationSubnets, b: &AttestationSubnets) -> (r: bool)
    requires
        a.wf(),
        b.wf(),
    ensures
        r == (a.bits() == b.bits()),
{
    let mut i: usize = 0;
    while i < 64
        invariant
            i <= 64,
            a.wf(),
            b.wf(),
            forall|j: int| 0 <= j < i ==> a.bits()[j] == b.bits()[j],
        decreases 64 - i,
    {
        let x = a.get(i);
        let y = b.get(i);
        match (x, y) {
            (Ok(p), Ok(q)) => {
                if p != q {
                    return false;
                }
            },
            _ => {},
        }
        i = i + 1;
    }
    assert(a.bits() =~= b.bits());
    true
}

} // verus!
