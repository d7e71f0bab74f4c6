use vstd::prelude::*;

use crate::bytes::{bytes_equal, copy_bytes};
use crate::lean_state::{lemma_filter_take_step, opt_bytes_view, ConnectionState, Direction, PeerId};

verus! {

/// The number of custody groups that the data columns are spread over.
pub const NUM_CUSTODY_GROUPS: u64 = 128;

/// The sampling score a newly seen peer starts with: the neutral midpoint 128.
pub const INITIAL_SAMPLING_SCORE: u8 = 128;

/// The status a peer sent: its fork digest, finalized checkpoint and head.
#[derive(Clone, Copy, Debug, PartialEq, Eq)]
pub struct PeerStatus {
    pub fork_digest: [u8; 4],
    pub finalized_root: [u8; 32],
    pub finalized_epoch: u64,
    pub head_root: [u8; 32],
    pub head_slot: u64,
}

/// The metadata a peer sent: its sequence number, the SSZ bytes of its attestation and
/// sync committee subnet bitfields, and its custody group count.
#[derive(Clone, Copy, Debug, PartialEq, Eq)]
pub struct PeerMetaData {
    pub seq_number: u64,
    pub attnets: [u8; 8],
    pub syncnets: u8,
    pub custody_group_count: u64,
}

/// What the beacon node knows of one peer.
#[derive(Debug)]
pub struct CachedPeer {
    pub peer_id: PeerId,
    /// Last multiaddress observed for the peer, in its byte encoding.
    pub last_seen_p2p_address: Option<Vec<u8>>,
    pub state: ConnectionState,
    pub direction: Direction,
    /// When the peer was last heard from, in milliseconds of the node's clock.
    pub last_seen: u64,
    /// The custody groups that the node id of the peer's ENR and the custody group
    /// count of its metadata give it; absent while either is unknown.
    pub custody_groups: Option<Vec<u64>>,
    /// The status the peer last sent, if any.
    pub status: Option<PeerStatus>,
    /// The metadata the peer last sent, if any.
    pub meta_data: Option<PeerMetaData>,
    /// Responsiveness to data availability sampling.
    pub sampling_score: u8,
    pub sampling_requests: u64,
    pub sampling_successes: u64,
    pub sampling_failures: u64,
}

pub struct CachedPeerView {
    pub peer_id: Seq<u8>,
    pub last_seen_p2p_address: Option<Seq<u8>>,
    pub state: ConnectionState,
    pub direction: Direction,
    pub last_seen: u64,
    pub custody_groups: Option<Seq<u64>>,
    pub status: Option<PeerStatus>,
    pub meta_data: Option<PeerMetaData>,
    pub sampling_score: u8,
    pub sampling_requests: u64,
    pub sampling_successes: u64,
    pub sampling_failures: u64,
}

pub open spec fn opt_groups_view(a: Option<Vec<u64>>) -> Option<Seq<u64>> {
    match a {
        Some(v) => Some(v@),
        None => None,
    }
}

impl View for CachedPeer {
    type V = CachedPeerView;

    open spec fn view(&self) -> CachedPeerView {
        CachedPeerView {
            peer_id: self.peer_id@,
            last_seen_p2p_address: opt_bytes_view(self.last_seen_p2p_address),
            state: self.state,
            direction: self.direction,
            last_seen: self.last_seen,
            custody_groups: opt_groups_view(self.custody_groups),
            status: self.status,
            meta_data: self.meta_data,
            sampling_score: self.sampling_score,
            sampling_requests: self.sampling_requests,
            sampling_successes: self.sampling_successes,
            sampling_failures: self.sampling_failures,
        }
    }
}

fn copy_opt_bytes(a: &Option<Vec<u8>>) -> (r: Option<Vec<u8>>)
    ensures
        opt_bytes_view(r) == opt_bytes_view(*a),
{
    match a {
        Some(v) => Some(copy_bytes(v)),
        None => None,
    }
}

fn copy_opt_groups(a: &Option<Vec<u64>>) -> (r: Option<Vec<u64>>)
    ensures
        opt_groups_view(r) == opt_groups_view(*a),
{
    match a {
        Some(v) => {
            let mut out: Vec<u64> = Vec::new();
            let mut i: usize = 0;
            while i < v.len()
                invariant
                    i <= v@.len(),
                    out@ == v@.take(i as int),
                decreases v@.len() - i,
            {
                out.push(v[i]);
                assert(v@.take(i as int + 1) =~= v@.take(i as int).push(v@[i as int]));
                i = i + 1;
            }
            assert(v@.take(v@.len() as int) =~= v@);
            Some(out)
        },
        None => None,
    }
}

/// The entry of a peer seen for the first time at `now`.
pub open spec fn fresh_peer(
    id: Seq<u8>,
    address: Option<Seq<u8>>,
    state: ConnectionState,
    direction: Direction,
    custody_groups: Option<Seq<u64>>,
    now: u64,
) -> CachedPeerView {
    CachedPeerView {
        peer_id: id,
        last_seen_p2p_address: address,
        state,
        direction,
        last_seen: now,
        custody_groups,
        status: None,
        meta_data: None,
        sampling_score: INITIAL_SAMPLING_SCORE,
        sampling_requests: 0,
        sampling_successes: 0,
        sampling_failures: 0,
    }
}

impl CachedPeer {
    /// A peer seen for the first time at `now`, with no sampling history.
    pub fn new(
        peer_id: PeerId,
        address: Option<Vec<u8>>,
        state: ConnectionState,
        direction: Direction,
        custody_groups: Option<Vec<u64>>,
        now: u64,
    ) -> (r: CachedPeer)
        ensures
            r@ == fresh_peer(
                peer_id@,
                opt_bytes_view(address),
                state,
                direction,
                opt_groups_view(custody_groups),
                now,
            ),
    {
        CachedPeer {
            peer_id,
            last_seen_p2p_address: address,
            state,
            direction,
            last_seen: now,
            custody_groups,
            status: None,
            meta_data: None,
            sampling_score: INITIAL_SAMPLING_SCORE,
            sampling_requests: 0,
            sampling_successes: 0,
            sampling_failures: 0,
        }
    }

    /// Records that the peer was heard from at `now`.
    pub fn update_last_seen(&mut self, now: u64)
        ensures
            final(self)@ == (CachedPeerView { last_seen: now, ..old(self)@ }),
    {
        self.last_seen = now;
    }

    /// A copy of this entry.
    pub fn duplicate(&self) -> (r: CachedPeer)
        ensures
            r@ == self@,
    {
        CachedPeer {
            peer_id: self.peer_id.duplicate(),
            last_seen_p2p_address: copy_opt_bytes(&self.last_seen_p2p_address),
            state: self.state,
            direction: self.direction,
            last_seen: self.last_seen,
            custody_groups: copy_opt_groups(&self.custody_groups),
            status: self.status,
            meta_data: self.meta_data,
            sampling_score: self.sampling_score,
            sampling_requests: self.sampling_requests,
            sampling_successes: self.sampling_successes,
            sampling_failures: self.sampling_failures,
        }
    }
}

/// Peer ids are unique in the table.
pub open spec fn ids_unique(table: Seq<CachedPeerView>) -> bool {
    forall|i: int, j: int|
        0 <= i < table.len() && 0 <= j < table.len() && i != j ==> #[trigger] table[i].peer_id
            != #[trigger] table[j].peer_id
}

pub open spec fn has_peer(table: Seq<CachedPeerView>, id: Seq<u8>) -> bool {
    exists|i: int| 0 <= i < table.len() && #[trigger] table[i].peer_id == id
}

/// The index of the entry for `id` in `table` (meaningful when `has_peer(table, id)`).
pub open spec fn peer_index(table: Seq<CachedPeerView>, id: Seq<u8>) -> int {
    choose|i: int| 0 <= i < table.len() && #[trigger] table[i].peer_id == id
}

/// The table after `upsert_peer`: an existing entry gets the new state and direction,
/// and the new address and custody groups where they are given; otherwise a fresh
/// entry, seen at `now`, is appended.
pub open spec fn upserted(
    table: Seq<CachedPeerView>,
    id: Seq<u8>,
    address: Option<Seq<u8>>,
    state: ConnectionState,
    direction: Direction,
    custody_groups: Option<Seq<u64>>,
    now: u64,
) -> Seq<CachedPeerView> {
    if has_peer(table, id) {
        let i = peer_index(table, id);
        let old = table[i];
        table.update(
            i,
            CachedPeerView {
                last_seen_p2p_address: if address is Some {
                    address
                } else {
                    old.last_seen_p2p_address
                },
                state,
                direction,
                custody_groups: if custody_groups is Some {
                    custody_groups
                } else {
                    old.custody_groups
                },
                ..old
            },
        )
    } else {
        table.push(fresh_peer(id, address, state, direction, custody_groups, now))
    }
}

/// The table after the entry for `id` (if any) took `state`.
pub open spec fn with_state(table: Seq<CachedPeerView>, id: Seq<u8>, state: ConnectionState) -> Seq<
    CachedPeerView,
> {
    if has_peer(table, id) {
        let i = peer_index(table, id);
        table.update(i, CachedPeerView { state, ..table[i] })
    } else {
        table
    }
}

/// An entry after one more sampling answer: a success adds 10 to the score, a failure
/// takes 20 from it, both saturating; the counters count the answer.
pub open spec fn sampled(p: CachedPeerView, success: bool) -> CachedPeerView {
    CachedPeerView {
        sampling_requests: (p.sampling_requests + 1) as u64,
        sampling_successes: if success {
            (p.sampling_successes + 1) as u64
        } else {
            p.sampling_successes
        },
        sampling_failures: if success {
            p.sampling_failures
        } else {
            (p.sampling_failures + 1) as u64
        },
        sampling_score: if success {
            if p.sampling_score + 10 > 255 {
                255u8
            } else {
                (p.sampling_score + 10) as u8
            }
        } else {
            if p.sampling_score < 20 {
                0u8
            } else {
                (p.sampling_score - 20) as u8
            }
        },
        ..p
    }
}

/// Whether the counters of the entry for `id` (if any) can count one more answer.
pub open spec fn can_count_sample(table: Seq<CachedPeerView>, id: Seq<u8>, success: bool) -> bool {
    has_peer(table, id) ==> {
        let p = table[peer_index(table, id)];
        &&& p.sampling_requests < u64::MAX
        &&& success ==> p.sampling_successes < u64::MAX
        &&& !success ==> p.sampling_failures < u64::MAX
    }
}

/// The table after the entry for `id` (if any) recorded a sampling answer.
pub open spec fn with_sample(table: Seq<CachedPeerView>, id: Seq<u8>, success: bool) -> Seq<
    CachedPeerView,
> {
    if has_peer(table, id) {
        let i = peer_index(table, id);
        table.update(i, sampled(table[i], success))
    } else {
        table
    }
}

pub open spec fn is_connected(p: CachedPeerView) -> bool {
    p.state is Connected
}

/// Whether a peer is expected to custody column `column_id`: it is connected, its custody
/// groups are known, and they hold the column's group.
pub open spec fn custodies_column(p: CachedPeerView, column_id: u64) -> bool {
    &&& is_connected(p)
    &&& p.custody_groups matches Some(groups) && groups.contains(
        (column_id % NUM_CUSTODY_GROUPS) as u64,
    )
}

/// The beacon node's view of its peers.
#[derive(Debug)]
pub struct NetworkState {
    pub peer_table: Vec<CachedPeer>,
}

impl NetworkState {
    pub open spec fn table(&self) -> Seq<CachedPeerView> {
        self.peer_table@.map_values(|p: CachedPeer| p@)
    }

    /// Every peer id occurs once in the table.
    pub open spec fn wf(&self) -> bool {
        ids_unique(self.table())
    }

    /// A state that knows no peer.
    pub fn new() -> (r: NetworkState)
        ensures
            r.wf(),
            r.table() == Seq::<CachedPeerView>::empty(),
    {
        let r = NetworkState { peer_table: Vec::new() };
        assert(r.table() =~= Seq::<CachedPeerView>::empty());
        r
    }

    /// Index of the entry for `id`, if the table has one.
    fn find_peer(&self, id: &PeerId) -> (r: Option<usize>)
        requires
            self.wf(),
        ensures
            match r {
                Some(i) => i < self.table().len() && self.table()[i as int].peer_id == id@
                    && peer_index(self.table(), id@) == i,
                None => !has_peer(self.table(), id@),
            },
    {
        let mut i: usize = 0;
        while i < self.peer_table.len()
            invariant
                i <= self.peer_table.len(),
                self.wf(),
                forall|k: int| 0 <= k < i ==> self.table()[k].peer_id != id@,
            decreases self.peer_table.len() - i,
        {
            if bytes_equal(&self.peer_table[i].peer_id.0, &id.0) {
                proof {
                    assert(self.table()[i as int] == self.peer_table@[i as int]@);
                    assert(self.table()[i as int].peer_id == id@);
                    assert(has_peer(self.table(), id@));
                    let j = peer_index(self.table(), id@);
                    assert(0 <= j < self.table().len() && self.table()[j].peer_id == id@);
                    if j != i as int {
                        assert(self.table()[j].peer_id != self.table()[i as int].peer_id);
                    }
                }
                return Some(i);
            }
            i = i + 1;
        }
        None
    }

    /// Records that `peer_id` was seen at `now` with the given state and direction.
    pub fn upsert_peer(
        &mut self,
        peer_id: PeerId,
        address: Option<Vec<u8>>,
        state: ConnectionState,
        direction: Direction,
        custody_groups: Option<Vec<u64>>,
        now: u64,
    )
        requires
            old(self).wf(),
        ensures
            final(self).wf(),
            final(self).table() == upserted(
                old(self).table(),
                peer_id@,
                opt_bytes_view(address),
                state,
                direction,
                opt_groups_view(custody_groups),
                now,
            ),
    {
        let ghost old_table = self.table();
        match self.find_peer(&peer_id) {
            Some(i) => {
                let old_peer = &self.peer_table[i];
                let new_address = match address {
                    Some(a) => Some(a),
                    None => copy_opt_bytes(&old_peer.last_seen_p2p_address),
                };
                let new_groups = match custody_groups {
                    Some(g) => Some(g),
                    None => copy_opt_groups(&old_peer.custody_groups),
                };
                let updated = CachedPeer {
                    peer_id: old_peer.peer_id.duplicate(),
                    last_seen_p2p_address: new_address,
                    state,
                    direction,
                    last_seen: old_peer.last_seen,
                    custody_groups: new_groups,
                    status: old_peer.status,
                    meta_data: old_peer.meta_data,
                    sampling_score: old_peer.sampling_score,
                    sampling_requests: old_peer.sampling_requests,
                    sampling_successes: old_peer.sampling_successes,
                    sampling_failures: old_peer.sampling_failures,
                };
                self.peer_table.set(i, updated);
                proof {
                    assert(self.table() =~= upserted(
                        old_table,
                        peer_id@,
                        opt_bytes_view(address),
                        state,
                        direction,
                        opt_groups_view(custody_groups),
                        now,
                    ));
                }
            },
            None => {
                let p = CachedPeer::new(peer_id, address, state, direction, custody_groups, now);
                self.peer_table.push(p);
                proof {
                    assert(self.table() =~= old_table.push(p@));
                }
            },
        }
    }

    /// Sets the connection state of `peer_id`, if the table has it.
    pub fn update_peer_state(&mut self, peer_id: &PeerId, state: ConnectionState)
        requires
            old(self).wf(),
        ensures
            final(self).wf(),
            final(self).table() == with_state(old(self).table(), peer_id@, state),
    {
        let ghost old_table = self.table();
        match self.find_peer(peer_id) {
            Some(i) => {
                let mut p = self.peer_table[i].duplicate();
                p.state = state;
                self.peer_table.set(i, p);
                proof {
                    assert(self.table() =~= with_state(old_table, peer_id@, state));
                }
            },
            None => {},
        }
    }

    /// Copies of the connected peers, in table order.
    pub fn connected_peers(&self) -> (r: Vec<CachedPeer>)
        ensures
            r@.map_values(|p: CachedPeer| p@) == self.table().filter(
                |p: CachedPeerView| is_connected(p),
            ),
    {
        let mut out: Vec<CachedPeer> = Vec::new();
        let mut k: usize = 0;
        let ghost pred = |p: CachedPeerView| is_connected(p);
        while k < self.peer_table.len()
            invariant
                k <= self.peer_table.len(),
                pred == (|p: CachedPeerView| is_connected(p)),
                out@.map_values(|p: CachedPeer| p@) == self.table().take(k as int).filter(pred),
            decreases self.peer_table.len() - k,
        {
            proof {
                lemma_filter_take_step(self.table(), k as int, pred);
            }
            if self.peer_table[k].state == ConnectionState::Connected {
                let ghost before = out@;
                out.push(self.peer_table[k].duplicate());
                proof {
                    assert(out@.map_values(|p: CachedPeer| p@) =~= before.map_values(
                        |p: CachedPeer| p@,
                    ).push(self.table()[k as int]));
                }
            }
            k = k + 1;
        }
        assert(self.table().take(self.peer_table@.len() as int) =~= self.table());
        out
    }

    /// Whether `groups` holds `g`.
    fn groups_contain(groups: &Vec<u64>, g: u64) -> (r: bool)
        ensures
            r == groups@.contains(g),
    {
        let mut i: usize = 0;
        while i < groups.len()
            invariant
                i <= groups@.len(),
                forall|k: int| 0 <= k < i ==> groups@[k] != g,
            decreases groups@.len() - i,
        {
            if groups[i] == g {
                return true;
            }
            i = i + 1;
        }
        false
    }

    /// The ids of the connected peers that are expected to custody column `column_id`,
    /// in table order.
    pub fn peers_for_column(&self, column_id: u64) -> (r: Vec<PeerId>)
        ensures
            r@.map_values(|p: PeerId| p@) == self.table().filter(
                |p: CachedPeerView| custodies_column(p, column_id),
            ).map_values(|p: CachedPeerView| p.peer_id),
    {
        let group = column_id % NUM_CUSTODY_GROUPS;
        let mut out: Vec<PeerId> = Vec::new();
        let mut k: usize = 0;
        let ghost pred = |p: CachedPeerView| custodies_column(p, column_id);
        let ghost to_id = |p: CachedPeerView| p.peer_id;
        while k < self.peer_table.len()
            invariant
                k <= self.peer_table.len(),
                group == column_id % NUM_CUSTODY_GROUPS,
                pred == (|p: CachedPeerView| custodies_column(p, column_id)),
                to_id == (|p: CachedPeerView| p.peer_id),
                out@.map_values(|p: PeerId| p@) == self.table().take(k as int).filter(
                    pred,
                ).map_values(to_id),
            decreases self.peer_table.len() - k,
        {
            let ghost t = self.table();
            proof {
                lemma_filter_take_step(t, k as int, pred);
            }
            let peer = &self.peer_table[k];
            let serves = peer.state == ConnectionState::Connected && match &peer.custody_groups {
                Some(groups) => Self::groups_contain(groups, group),
                None => false,
            };
            assert(serves == pred(t[k as int]));
            if serves {
                let ghost before = out@;
                out.push(peer.peer_id.duplicate());
                proof {
                    let f = t.take(k as int).filter(pred);
                    assert(f.push(t[k as int]).map_values(to_id) =~= f.map_values(to_id).push(
                        t[k as int].peer_id,
                    ));
                    assert(out@.map_values(|p: PeerId| p@) =~= before.map_values(|p: PeerId| p@).push(
                        t[k as int].peer_id,
                    ));
                }
            }
            k = k + 1;
        }
        assert(self.table().take(self.peer_table@.len() as int) =~= self.table());
        out
    }

    fn record_sample(&mut self, peer_id: &PeerId, success: bool)
        requires
            old(self).wf(),
            can_count_sample(old(self).table(), peer_id@, success),
        ensures
            final(self).wf(),
            final(self).table() == with_sample(old(self).table(), peer_id@, success),
    {
        let ghost old_table = self.table();
        match self.find_peer(peer_id) {
            Some(i) => {
                let mut p = self.peer_table[i].duplicate();
                p.sampling_requests = p.sampling_requests + 1;
                if success {
                    p.sampling_successes = p.sampling_successes + 1;
                    p.sampling_score = p.sampling_score.saturating_add(10);
                } else {
                    p.sampling_failures = p.sampling_failures + 1;
                    p.sampling_score = p.sampling_score.saturating_sub(20);
                }
                self.peer_table.set(i, p);
                proof {
                    assert(self.table() =~= with_sample(old_table, peer_id@, success));
                }
            },
            None => {},
        }
    }

    /// Records a successful sampling answer from `peer_id`: one more request and
    /// success, and 10 more score (saturating).
    pub fn record_sampling_success(&mut self, peer_id: &PeerId)
        requires
            old(self).wf(),
            can_count_sample(old(self).table(), peer_id@, true),
        ensures
            final(self).wf(),
            final(self).table() == with_sample(old(self).table(), peer_id@, true),
    {
        self.record_sample(peer_id, true)
    }

    /// Records a failed sampling answer from `peer_id`: one more request and failure,
    /// and 20 less score (saturating).
    pub fn record_sampling_failure(&mut self, peer_id: &PeerId)
        requires
            old(self).wf(),
            can_count_sample(old(self).table(), peer_id@, false),
        ensures
            final(self).wf(),
            final(self).table() == with_sample(old(self).table(), peer_id@, false),
    {
        self.record_sample(peer_id, false)
    }
}

/// Upserting a peer into a table of unique ids keeps the ids unique and leaves exactly one
/// entry for the peer, whose connection state and direction are the ones given, whatever
/// they were before (a known peer upserted as disconnected is disconnected); every other
/// entry is unchanged, and the table grows by one entry exactly when the peer was new.
pub proof fn upsert_sets_state_and_direction(
    table: Seq<CachedPeerView>,
    id: Seq<u8>,
    address: Option<Seq<u8>>,
    state: ConnectionState,
    direction: Direction,
    custody_groups: Option<Seq<u64>>,
    now: u64,
)
    requires
        ids_unique(table),
    ensures
        ({
            let t = upserted(table, id, address, state, direction, custody_groups, now);
            &&& ids_unique(t)
            &&& exists|i: int| 0 <= i < t.len() && #[trigger] t[i].peer_id == id
            &&& forall|i: int|
                0 <= i < t.len() && #[trigger] t[i].peer_id == id ==> t[i].state == state
                    && t[i].direction == direction
            &&& forall|i: int|
                0 <= i < table.len() && #[trigger] table[i].peer_id != id ==> t[i] == table[i]
            &&& t.len() == table.len() + if (exists|i: int|
                0 <= i < table.len() && #[trigger] table[i].peer_id == id) {
                0int
            } else {
                1int
            }
        }),
{
    let t = upserted(table, id, address, state, direction, custody_groups, now);
    if has_peer(table, id) {
        let k = peer_index(table, id);
        assert(t[k].peer_id == id);
        assert forall|i: int| 0 <= i < t.len() && #[trigger] t[i].peer_id == id implies i == k by {
            if i != k {
                assert(table[i].peer_id == table[k].peer_id);
            }
        }
    } else {
        let n = table.len() as int;
        assert(t[n].peer_id == id);
        assert forall|i: int| 0 <= i < t.len() && #[trigger] t[i].peer_id == id implies i == n by {
            if i < n {
                assert(table[i].peer_id == id);
            }
        }
    }
}

/// One more sampling answer counts one more request, and one more success or failure
/// as it went; a success raises the sampling score by 10 (stopping at 255) and a failure
/// lowers it by 20 (stopping at 0); nothing else of the entry changes. In a table of
/// unique ids, recording an answer, or a new connection state, for a peer changes that
/// peer's entry alone.
pub proof fn sampling_answers_count_and_move_the_score(
    table: Seq<CachedPeerView>,
    id: Seq<u8>,
    p: CachedPeerView,
    success: bool,
    state: ConnectionState,
)
    requires
        ids_unique(table),
        p.sampling_requests < u64::MAX,
        p.sampling_successes < u64::MAX,
        p.sampling_failures < u64::MAX,
    ensures
        ({
            let q = sampled(p, success);
            &&& q.sampling_requests == p.sampling_requests + 1
            &&& q.sampling_successes == p.sampling_successes + if success {
                1int
            } else {
                0int
            }
            &&& q.sampling_failures == p.sampling_failures + if success {
                0int
            } else {
                1int
            }
            &&& success ==> p.sampling_score <= q.sampling_score <= p.sampling_score + 10 && (
            q.sampling_score == p.sampling_score + 10 || q.sampling_score == 255)
            &&& !success ==> p.sampling_score - 20 <= q.sampling_score <= p.sampling_score && (
            q.sampling_score == p.sampling_score - 20 || q.sampling_score == 0)
            &&& q.peer_id == p.peer_id && q.state == p.state && q.direction == p.direction
            &&& q.last_seen == p.last_seen && q.custody_groups == p.custody_groups
            &&& q.last_seen_p2p_address == p.last_seen_p2p_address
            &&& q.status == p.status && q.meta_data == p.meta_data
        }),
        ({
            let t = with_sample(table, id, success);
            let u = with_state(table, id, state);
            &&& t.len() == table.len() && u.len() == table.len()
            &&& forall|i: int|
                0 <= i < table.len() ==> if #[trigger] table[i].peer_id == id {
                    t[i] == sampled(table[i], success) && u[i] == CachedPeerView {
                        state,
                        ..table[i]
                    }
                } else {
                    t[i] == table[i] && u[i] == table[i]
                }
        }),
{
    if has_peer(table, id) {
        let k = peer_index(table, id);
        assert forall|i: int| 0 <= i < table.len() && #[trigger] table[i].peer_id == id implies i
            == k by {
            if i != k {
                assert(table[i].peer_id == table[k].peer_id);
            }
        }
    }
}

/// Whether the peer's known custody groups hold group `g`.
pub open spec fn holds_group(p: CachedPeerView, g: u64) -> bool {
    p.custody_groups matches Some(groups) && groups.contains(g)
}

/// The peers expected to custody a column are exactly the connected peers whose known
/// custody groups hold the column's group, which is the column id modulo the 128 custody
/// groups: each such peer of the table is among them, and each of them is such a peer.
pub proof fn column_custodians_hold_its_group(table: Seq<CachedPeerView>, column_id: u64)
    ensures
        ({
            let found = table.filter(|p: CachedPeerView| custodies_column(p, column_id));
            &&& forall|i: int|
                0 <= i < table.len() && (#[trigger] table[i]).state is Connected && holds_group(
                    table[i],
                    (column_id % 128) as u64,
                ) ==> found.contains(table[i])
            &&& forall|k: int|
                0 <= k < found.len() ==> table.contains(#[trigger] found[k]) && found[k].state
                    is Connected && holds_group(found[k], (column_id % 128) as u64)
        }),
{
    let pred = |p: CachedPeerView| custodies_column(p, column_id);
    table.filter_lemma(pred);
    assert forall|i: int|
        0 <= i < table.len() && (#[trigger] table[i]).state is Connected && holds_group(
            table[i],
            (column_id % 128) as u64,
        ) implies table.filter(pred).contains(table[i]) by {
        assert(pred(table[i]));
        table.lemma_filter_contains(pred, i);
    }
    let found = table.filter(pred);
    assert forall|k: int| 0 <= k < found.len() implies table.contains(#[trigger] found[k])
        && found[k].state is Connected && holds_group(found[k], (column_id % 128) as u64) by {
        assert(pred(found[k]));
        table.lemma_filter_contains_rev(pred, found[k]);
    }
}

} // verus!
