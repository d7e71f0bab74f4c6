use vstd::prelude::*;

use crate::bytes::bytes_equal;
use crate::lean_state::PeerId;

verus! {

/// Default ban duration in seconds (1 hour).
pub const DEFAULT_BAN_DURATION_SECS: u64 = 3600;

/// How often expired bans are looked for, in seconds.
pub const CLEANUP_INTERVAL_SECS: u64 = 300;

/// The banned peers kept in memory, with the timing of the periodic cleanup of
/// expired bans. Times are milliseconds of the node's clock.
#[derive(Debug)]
pub struct PeerScoreManager {
    banned_peers: Vec<PeerId>,
    ban_duration_secs: u64,
    last_cleanup_ms: u64,
}

/// Whether the cleanup of expired bans is due at `now_ms` after the last one at
/// `last_cleanup_ms`.
pub open spec fn cleanup_is_due(last_cleanup_ms: u64, now_ms: u64, has_ban_table: bool) -> bool {
    has_ban_table && now_ms >= last_cleanup_ms && now_ms - last_cleanup_ms >= CLEANUP_INTERVAL_SECS
        * 1000
}

/// The cleanup is due exactly when there is a ban table and at least five minutes have
/// passed since the last one; never without a ban table, nor before the last cleanup.
pub proof fn cleanup_due_every_five_minutes(last_cleanup_ms: u64, now_ms: u64, has_ban_table: bool)
    ensures
        cleanup_is_due(last_cleanup_ms, now_ms, has_ban_table) <==> (has_ban_table && now_ms
            >= last_cleanup_ms + 300_000),
{
}

impl PeerScoreManager {
    /// The ids of the banned peers, in the order they were banned.
    pub closed spec fn banned_ids(&self) -> Seq<Seq<u8>> {
        self.banned_peers@.map_values(|p: PeerId| p@)
    }

    /// The set of banned peer ids.
    pub open spec fn banned(&self) -> Set<Seq<u8>> {
        self.banned_ids().to_set()
    }

    /// No peer is held twice.
    pub closed spec fn wf(&self) -> bool {
        self.banned_ids().no_duplicates()
    }

    pub closed spec fn ban_duration_secs(&self) -> u64 {
        self.ban_duration_secs
    }

    pub closed spec fn last_cleanup_ms(&self) -> u64 {
        self.last_cleanup_ms
    }

    /// A manager that bans for `ban_duration_secs` and bans nobody yet; the last
    /// cleanup counts as done at `now_ms`.
    pub fn new(ban_duration_secs: u64, now_ms: u64) -> (r: PeerScoreManager)
        ensures
            r.wf(),
            r.banned() == Set::<Seq<u8>>::empty(),
            r.ban_duration_secs() == ban_duration_secs,
            r.last_cleanup_ms() == now_ms,
    {
        let r = PeerScoreManager { banned_peers: Vec::new(), ban_duration_secs, last_cleanup_ms: now_ms };
        assert(r.banned_ids() =~= Seq::<Seq<u8>>::empty());
        assert(r.banned() =~= Set::<Seq<u8>>::empty());
        r
    }

    /// The position of `peer_id` among the banned peers, if it is banned.
    fn position(&self, peer_id: &PeerId) -> (r: Option<usize>)
        ensures
            match r {
                Some(i) => i < self.banned_ids().len() && self.banned_ids()[i as int] == peer_id@,
                None => !self.banned().contains(peer_id@),
            },
    {
        let mut i: usize = 0;
        while i < self.banned_peers.len()
            invariant
                i <= self.banned_peers@.len(),
                forall|k: int| 0 <= k < i ==> self.banned_ids()[k] != peer_id@,
            decreases self.banned_peers@.len() - i,
        {
            if bytes_equal(&self.banned_peers[i].0, &peer_id.0) {
                return Some(i);
            }
            i = i + 1;
        }
        None
    }

    /// Whether `peer_id` is banned.
    pub fn is_banned(&self, peer_id: &PeerId) -> (r: bool)
        ensures
            r == self.banned().contains(peer_id@),
    {
        self.position(peer_id).is_some()
    }

    /// The number of banned peers.
    pub fn banned_count(&self) -> (r: usize)
        requires
            self.wf(),
        ensures
            r == self.banned().len(),
    {
        proof {
            self.banned_ids().unique_seq_to_set();
        }
        self.banned_peers.len()
    }

    /// The banned peers, each once.
    pub fn get_banned_peers(&self) -> (r: Vec<PeerId>)
        requires
            self.wf(),
        ensures
            r@.map_values(|p: PeerId| p@).to_set() == self.banned(),
            r@.map_values(|p: PeerId| p@).no_duplicates(),
    {
        let mut out: Vec<PeerId> = Vec::new();
        let mut i: usize = 0;
        while i < self.banned_peers.len()
            invariant
                i <= self.banned_peers@.len(),
                out@.map_values(|p: PeerId| p@) == self.banned_ids().take(i as int),
            decreases self.banned_peers@.len() - i,
        {
            out.push(self.banned_peers[i].duplicate());
            assert(self.banned_ids().take(i as int + 1) =~= self.banned_ids().take(i as int).push(
                self.banned_ids()[i as int],
            ));
            assert(out@.map_values(|p: PeerId| p@) =~= self.banned_ids().take(i as int + 1));
            i = i + 1;
        }
        assert(self.banned_ids().take(self.banned_peers@.len() as int) =~= self.banned_ids());
        out
    }

    /// Bans `peer_id`, in memory only.
    pub fn ban_peer_memory_only(&mut self, peer_id: PeerId)
        requires
            old(self).wf(),
        ensures
            final(self).wf(),
            final(self).banned() == old(self).banned().insert(peer_id@),
            final(self).ban_duration_secs() == old(self).ban_duration_secs(),
            final(self).last_cleanup_ms() == old(self).last_cleanup_ms(),
    {
        match self.position(&peer_id) {
            Some(_) => {
                assert(self.banned().insert(peer_id@) =~= self.banned());
            },
            None => {
                let ghost before = self.banned_ids();
                self.banned_peers.push(peer_id);
                proof {
                    assert(self.banned_ids() =~= before.push(peer_id@));
                    let after = before.push(peer_id@);
                    assert forall|x: Seq<u8>| #[trigger] after.to_set().contains(x)
                        == before.to_set().insert(peer_id@).contains(x) by {
                        vstd::seq_lib::lemma_seq_contains_after_push(before, peer_id@, x);
                        assert(after.to_set().contains(x) == after.contains(x));
                        assert(before.to_set().contains(x) == before.contains(x));
                    }
                    assert(after.to_set() =~= before.to_set().insert(peer_id@));
                    assert(self.banned() == after.to_set());
                }
            },
        }
    }

    /// Lifts the ban of `peer_id`; answers whether it was banned.
    pub fn unban_peer(&mut self, peer_id: &PeerId) -> (r: bool)
        requires
            old(self).wf(),
        ensures
            final(self).wf(),
            r == old(self).banned().contains(peer_id@),
            final(self).banned() == old(self).banned().remove(peer_id@),
            final(self).ban_duration_secs() == old(self).ban_duration_secs(),
            final(self).last_cleanup_ms() == old(self).last_cleanup_ms(),
    {
        match self.position(peer_id) {
            Some(i) => {
                let ghost before = self.banned_ids();
                self.banned_peers.remove(i);
                proof {
                    assert(self.banned_ids() =~= before.remove(i as int));
                    assert forall|x: Seq<u8>| #[trigger] self.banned().contains(x)
                        == before.to_set().remove(peer_id@).contains(x) by {
                        if before.to_set().remove(peer_id@).contains(x) {
                            let j = choose|j: int| 0 <= j < before.len() && before[j] == x;
                            assert(j != i);
                            if j < i {
                                assert(self.banned_ids()[j] == x);
                            } else {
                                assert(self.banned_ids()[j - 1] == x);
                            }
                        }
                        if self.banned().contains(x) {
                            let j = choose|j: int|
                                0 <= j < self.banned_ids().len() && self.banned_ids()[j] == x;
                            if j < i {
                                assert(before[j] == x);
                            } else {
                                assert(before[j + 1] == x);
                            }
                        }
                    }
                    assert(self.banned() =~= before.to_set().remove(peer_id@));
                }
                true
            },
            None => {
                assert(self.banned().remove(peer_id@) =~= self.banned());
                false
            },
        }
    }

    /// Whether the periodic cleanup of expired bans is due at `now_ms`: there is a
    /// ban table to clean, and the cleanup interval has passed since the last one.
    /// When it is due, `now_ms` becomes the time of the last cleanup.
    pub fn begin_cleanup(&mut self, now_ms: u64, has_ban_table: bool) -> (r: bool)
        requires
            old(self).wf(),
        ensures
            final(self).wf(),
            r == cleanup_is_due(old(self).last_cleanup_ms(), now_ms, has_ban_table),
            final(self).last_cleanup_ms() == if r {
                now_ms
            } else {
                old(self).last_cleanup_ms()
            },
            final(self).banned() == old(self).banned(),
            final(self).ban_duration_secs() == old(self).ban_duration_secs(),
    {
        if !has_ban_table {
            return false;
        }
        if now_ms < self.last_cleanup_ms || now_ms - self.last_cleanup_ms < CLEANUP_INTERVAL_SECS
            * 1000 {
            return false;
        }
        self.last_cleanup_ms = now_ms;
        true
    }
}

} // verus!
