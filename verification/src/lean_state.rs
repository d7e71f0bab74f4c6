use vstd::prelude::*;

use crate::bytes::{bytes_equal, bytes_order, compare_bytes, copy_bytes};

verus! {

/// A checkpoint of the lean chain: a block root and its slot.
#[derive(Clone, Copy, Debug, PartialEq, Eq)]
pub struct Checkpoint {
    pub root: [u8; 32],
    pub slot: u64,
}

/// Whether two checkpoints are the same (same root and same slot).
pub fn checkpoint_equal(a: &Checkpoint, b: &Checkpoint) -> (r: bool)
    ensures
        r == (*a == *b),
{
    broadcast use vstd::array::group_array_axioms;

    if a.slot != b.slot {
        return false;
    }
    let mut i: usize = 0;
    while i < 32
        invariant
            i <= 32,
            forall|k: int| 0 <= k < i ==> a.root[k] == b.root[k],
        decreases 32 - i,
    {
        if a.root[i] != b.root[i] {
            return false;
        }
        i = i + 1;
    }
    assert(a.root =~= b.root);
    true
}

/// Connection state of a peer.
#[derive(Clone, Copy, Debug, PartialEq, Eq, Structural)]
pub enum ConnectionState {
    Connected,
    Connecting,
    Disconnected,
    Disconnecting,
}

/// Direction of a peer's most recent connection.
#[derive(Clone, Copy, Debug, PartialEq, Eq, Structural)]
pub enum Direction {
    Inbound,
    Outbound,
    Unknown,
}

/// A peer identity, held as the bytes of its multihash encoding.
#[derive(Debug)]
pub struct PeerId(pub Vec<u8>);

impl View for PeerId {
    type V = Seq<u8>;

    open spec fn view(&self) -> Seq<u8> {
        self.0@
    }
}

impl PeerId {
    /// A copy of this peer identity.
    pub fn duplicate(&self) -> (r: PeerId)
        ensures
            r@ == self@,
    {
        PeerId(copy_bytes(&self.0))
    }
}

/// Copies an optional byte string.
fn copy_opt_bytes(a: &Option<Vec<u8>>) -> (r: Option<Vec<u8>>)
    ensures
        opt_bytes_view(r) == opt_bytes_view(*a),
{
    match a {
        Some(v) => Some(copy_bytes(v)),
        None => None,
    }
}

pub open spec fn opt_bytes_view(a: Option<Vec<u8>>) -> Option<Seq<u8>> {
    match a {
        Some(v) => Some(v@),
        None => None,
    }
}

/// What the node knows of one peer.
#[derive(Debug)]
pub struct CachedPeer {
    pub peer_id: PeerId,
    /// Last multiaddress observed for the peer, in its byte encoding.
    pub last_seen_p2p_address: Option<Vec<u8>>,
    pub state: ConnectionState,
    pub direction: Direction,
    pub head_checkpoint: Option<Checkpoint>,
    pub finalized_checkpoint: Option<Checkpoint>,
    /// Position of the peer's last status update in the order of all status updates.
    pub last_status_update: Option<u64>,
    pub peer_score: u8,
}

pub struct CachedPeerView {
    pub peer_id: Seq<u8>,
    pub last_seen_p2p_address: Option<Seq<u8>>,
    pub state: ConnectionState,
    pub direction: Direction,
    pub head_checkpoint: Option<Checkpoint>,
    pub finalized_checkpoint: Option<Checkpoint>,
    pub last_status_update: Option<u64>,
    pub peer_score: u8,
}

impl View for CachedPeer {
    type V = CachedPeerView;

    open spec fn view(&self) -> CachedPeerView {
        CachedPeerView {
            peer_id: self.peer_id@,
            last_seen_p2p_address: opt_bytes_view(self.last_seen_p2p_address),
            state: self.state,
            direction: self.direction,
            head_checkpoint: self.head_checkpoint,
            finalized_checkpoint: self.finalized_checkpoint,
            last_status_update: self.last_status_update,
            peer_score: self.peer_score,
        }
    }
}

pub const MODIFIED_Z_SCORE_NUMERATOR: u128 = 6745;

pub const MODIFIED_Z_SCORE_OUTLIER_THRESHOLD: u128 = 35000;

/// Score a newly seen peer starts with: the midpoint of the `u8` range.
pub const INITIAL_PEER_SCORE: u8 = 127;

impl CachedPeer {
    /// A peer seen for the first time, with no checkpoints and no status update yet.
    pub fn new(
        peer_id: PeerId,
        address: Option<Vec<u8>>,
        state: ConnectionState,
        direction: Direction,
    ) -> (r: CachedPeer)
        ensures
            r@ == (CachedPeerView {
                peer_id: peer_id@,
                last_seen_p2p_address: opt_bytes_view(address),
                state,
                direction,
                head_checkpoint: None,
                finalized_checkpoint: None,
                last_status_update: None,
                peer_score: INITIAL_PEER_SCORE,
            }),
    {
        CachedPeer {
            peer_id,
            last_seen_p2p_address: address,
            state,
            direction,
            head_checkpoint: None,
            finalized_checkpoint: None,
            last_status_update: None,
            peer_score: INITIAL_PEER_SCORE,
        }
    }

    /// A copy of this entry.
    pub fn duplicate(&self) -> (r: CachedPeer)
        ensures
            r@ == self@,
    {
        CachedPeer {
            peer_id: self.peer_id.duplicate(),
            last_seen_p2p_address: copy_opt_bytes(&self.last_seen_p2p_address),
            state: self.state,
            direction: self.direction,
            head_checkpoint: self.head_checkpoint,
            finalized_checkpoint: self.finalized_checkpoint,
            last_status_update: self.last_status_update,
            peer_score: self.peer_score,
        }
    }
}

pub open spec fn is_connected(p: CachedPeerView) -> bool {
    p.state is Connected
}

/// The peers of `table` whose connection state is `Connected`, in table order.
pub open spec fn connected_peers(table: Seq<CachedPeerView>) -> Seq<CachedPeerView> {
    table.filter(|p: CachedPeerView| is_connected(p))
}

/// Peer ids are unique in the table.
pub open spec fn ids_unique(table: Seq<CachedPeerView>) -> bool {
    forall|i: int, j: int|
        0 <= i < table.len() && 0 <= j < table.len() && i != j ==> #[trigger] table[i].peer_id
            != #[trigger] table[j].peer_id
}

/// Index of the entry for `id`, if there is one.
pub open spec fn has_peer(table: Seq<CachedPeerView>, id: Seq<u8>) -> bool {
    exists|i: int| 0 <= i < table.len() && #[trigger] table[i].peer_id == id
}

/// The peers selected by `idx` (indices into `table`), in that order.
pub open spec fn pick(table: Seq<CachedPeerView>, idx: Seq<usize>) -> Seq<CachedPeerView> {
    idx.map_values(|i: usize| table[i as int])
}

/// The index of the entry for `id` in `table` (meaningful when `has_peer(table, id)`).
pub open spec fn peer_index(table: Seq<CachedPeerView>, id: Seq<u8>) -> int {
    choose|i: int| 0 <= i < table.len() && #[trigger] table[i].peer_id == id
}

/// The table after `upsert_peer(id, address, state, direction)`: an existing entry gets the new
/// state and direction (and the new address, when one is given); otherwise a fresh entry is
/// appended.
pub open spec fn upserted(
    table: Seq<CachedPeerView>,
    id: Seq<u8>,
    address: Option<Seq<u8>>,
    state: ConnectionState,
    direction: Direction,
) -> Seq<CachedPeerView> {
    if has_peer(table, id) {
        let i = peer_index(table, id);
        let old = table[i];
        table.update(
            i,
            CachedPeerView {
                peer_id: old.peer_id,
                last_seen_p2p_address: if address is Some {
                    address
                } else {
                    old.last_seen_p2p_address
                },
                state,
                direction,
                head_checkpoint: old.head_checkpoint,
                finalized_checkpoint: old.finalized_checkpoint,
                last_status_update: old.last_status_update,
                peer_score: old.peer_score,
            },
        )
    } else {
        table.push(
            CachedPeerView {
                peer_id: id,
                last_seen_p2p_address: address,
                state,
                direction,
                head_checkpoint: None,
                finalized_checkpoint: None,
                last_status_update: None,
                peer_score: INITIAL_PEER_SCORE,
            },
        )
    }
}

/// The table after the entry for `id` (if any) had its checkpoints set, stamped with `stamp`.
pub open spec fn with_checkpoints(
    table: Seq<CachedPeerView>,
    id: Seq<u8>,
    head: Checkpoint,
    finalized: Checkpoint,
    stamp: u64,
) -> Seq<CachedPeerView> {
    if has_peer(table, id) {
        let i = peer_index(table, id);
        let old = table[i];
        table.update(
            i,
            CachedPeerView {
                head_checkpoint: Some(head),
                finalized_checkpoint: Some(finalized),
                last_status_update: Some(stamp),
                ..old
            },
        )
    } else {
        table
    }
}

/// The table after the score of the entry for `id` (if any) became `score_of(old score)`.
pub open spec fn with_score(
    table: Seq<CachedPeerView>,
    id: Seq<u8>,
    score_of: spec_fn(u8) -> u8,
) -> Seq<CachedPeerView> {
    if has_peer(table, id) {
        let i = peer_index(table, id);
        let old = table[i];
        table.update(i, CachedPeerView { peer_score: score_of(old.peer_score), ..old })
    } else {
        table
    }
}

/// Whether `p` is connected and, for a head query, reports that head (for `HeadIs`) or a
/// head at or above that slot (for `HeadAtOrAbove`).
pub open spec fn answers_peer_query(f: PeerFilter, p: CachedPeerView) -> bool {
    &&& p.state is Connected
    &&& f matches PeerFilter::HeadIs(c) ==> p.head_checkpoint == Some(c)
    &&& f matches PeerFilter::HeadAtOrAbove(slot) ==> (p.head_checkpoint matches Some(h)
        && h.slot >= slot)
}

/// Recording checkpoints for a peer of a table with unique ids sets that peer's head and
/// finalized checkpoints and its status stamp, and changes nothing else. A query of the
/// table reports the id and score of every peer that answers it, and of those alone.
pub proof fn checkpoint_records_and_peer_queries(
    table: Seq<CachedPeerView>,
    id: Seq<u8>,
    head: Checkpoint,
    finalized: Checkpoint,
    stamp: u64,
    f: PeerFilter,
)
    requires
        ids_unique(table),
    ensures
        ({
            let t = with_checkpoints(table, id, head, finalized, stamp);
            &&& t.len() == table.len()
            &&& forall|i: int|
                0 <= i < table.len() ==> if #[trigger] table[i].peer_id == id {
                    t[i] == CachedPeerView {
                        head_checkpoint: Some(head),
                        finalized_checkpoint: Some(finalized),
                        last_status_update: Some(stamp),
                        ..table[i]
                    }
                } else {
                    t[i] == table[i]
                }
        }),
        forall|i: int|
            0 <= i < table.len() && answers_peer_query(f, #[trigger] table[i]) ==> ids_with_scores(
                table,
                f,
            ).contains((table[i].peer_id, table[i].peer_score)),
        forall|k: int|
            0 <= k < ids_with_scores(table, f).len() ==> #[trigger] reported_by_answering_peer(
                table,
                f,
                k,
            ),
{
    if has_peer(table, id) {
        let k = peer_index(table, id);
        assert forall|i: int| 0 <= i < table.len() && #[trigger] table[i].peer_id == id implies i
            == k by {
            if i != k {
                assert(table[i].peer_id == table[k].peer_id);
            }
        }
    }
    let pred = |p: CachedPeerView| peer_filter_holds(f, p);
    let to_pair = |p: CachedPeerView| (p.peer_id, p.peer_score);
    let found = table.filter(pred);
    table.filter_lemma(pred);
    assert forall|i: int| 0 <= i < table.len() && answers_peer_query(f, #[trigger] table[i]) implies ids_with_scores(
        table,
        f,
    ).contains((table[i].peer_id, table[i].peer_score)) by {
        assert(pred(table[i]));
        table.lemma_filter_contains(pred, i);
        let w = choose|w: int| 0 <= w < found.len() && found[w] == table[i];
        assert(found.map_values(to_pair)[w] == (table[i].peer_id, table[i].peer_score));
    }
    lemma_query_results_are_table_peers(table, f);
}

proof fn lemma_query_results_are_table_peers(table: Seq<CachedPeerView>, f: PeerFilter)
    ensures
        forall|k: int|
            0 <= k < ids_with_scores(table, f).len() ==> #[trigger] reported_by_answering_peer(
                table,
                f,
                k,
            ),
{
    assert forall|k: int| 0 <= k < ids_with_scores(table, f).len() implies #[trigger] reported_by_answering_peer(
        table,
        f,
        k,
    ) by {
        lemma_query_result_is_a_table_peer(table, f, k);
    }
}

/// Some peer of `table` answers `f` and gives the `k`-th reported pair.
pub open spec fn reported_by_answering_peer(table: Seq<CachedPeerView>, f: PeerFilter, k: int) -> bool {
    exists|i: int|
        #![trigger table[i]]
        0 <= i < table.len() && answers_peer_query(f, table[i]) && (
            table[i].peer_id,
            table[i].peer_score,
        ) == ids_with_scores(table, f)[k]
}

proof fn lemma_query_result_is_a_table_peer(table: Seq<CachedPeerView>, f: PeerFilter, k: int)
    requires
        0 <= k < ids_with_scores(table, f).len(),
    ensures
        exists|i: int|
            #![trigger table[i]]
            0 <= i < table.len() && answers_peer_query(f, table[i]) && (
                table[i].peer_id,
                table[i].peer_score,
            ) == ids_with_scores(table, f)[k],
{
    let pred = |p: CachedPeerView| peer_filter_holds(f, p);
    let found = table.filter(pred);
    table.filter_lemma(pred);
    assert(pred(found[k]));
    table.lemma_filter_contains_rev(pred, found[k]);
    let i = choose|i: int| 0 <= i < table.len() && table[i] == found[k];
    assert(answers_peer_query(f, table[i]));
    assert(ids_with_scores(table, f)[k] == (table[i].peer_id, table[i].peer_score));
}

/// A peer's score after a successful response: 10 more, up to 255.
pub open spec fn raised_score(s: u8) -> u8 {
    if s + 10 > 255 {
        255u8
    } else {
        (s + 10) as u8
    }
}

/// A peer's score after a failed response: 20 less, down to 0.
pub open spec fn lowered_score(s: u8) -> u8 {
    if s < 20 {
        0u8
    } else {
        (s - 20) as u8
    }
}

/// A success never lowers a score and raises it by 10 unless that would pass 255, where
/// it stops; a failure never raises a score and lowers it by 20 unless that would pass 0,
/// where it stops. Changing the score of a peer in a table of unique ids changes that
/// peer's score alone: its other fields, and every other entry, stay as they were.
pub proof fn response_scores_move_by_saturating_steps(
    table: Seq<CachedPeerView>,
    id: Seq<u8>,
    s: u8,
    increase: bool,
)
    requires
        ids_unique(table),
    ensures
        s <= raised_score(s) <= s + 10,
        raised_score(s) == s + 10 || (raised_score(s) == 255 && s > 245),
        s - 20 <= lowered_score(s) <= s,
        lowered_score(s) == s - 20 || (lowered_score(s) == 0 && s < 20),
        ({
            let f = if increase {
                |x: u8| raised_score(x)
            } else {
                |x: u8| lowered_score(x)
            };
            let t = with_score(table, id, f);
            &&& t.len() == table.len()
            &&& forall|i: int|
                0 <= i < table.len() ==> if #[trigger] table[i].peer_id == id {
                    t[i] == CachedPeerView { peer_score: f(table[i].peer_score), ..table[i] }
                } else {
                    t[i] == table[i]
                }
        }),
{
    if has_peer(table, id) {
        let k = peer_index(table, id);
        assert forall|i: int| 0 <= i < table.len() && #[trigger] table[i].peer_id == id implies i
            == k by {
            if i != k {
                assert(table[i].peer_id == table[k].peer_id);
            }
        }
    }
}

/// Which peers a query of the peer table reports.
pub enum PeerFilter {
    /// Every connected peer.
    Connected,
    /// Connected peers whose head checkpoint is the given one.
    HeadIs(Checkpoint),
    /// Connected peers whose head checkpoint is at or above the given slot.
    HeadAtOrAbove(u64),
}

pub open spec fn peer_filter_holds(f: PeerFilter, p: CachedPeerView) -> bool {
    is_connected(p) && match f {
        PeerFilter::Connected => true,
        PeerFilter::HeadIs(c) => p.head_checkpoint == Some(c),
        PeerFilter::HeadAtOrAbove(s) => match p.head_checkpoint {
            Some(c) => c.slot >= s,
            None => false,
        },
    }
}

/// The (id, score) pairs of the peers of `table` that `f` selects, in table order.
pub open spec fn ids_with_scores(table: Seq<CachedPeerView>, f: PeerFilter) -> Seq<(Seq<u8>, u8)> {
    table.filter(|p: CachedPeerView| peer_filter_holds(f, p)).map_values(
        |p: CachedPeerView| (p.peer_id, p.peer_score),
    )
}

pub open spec fn id_score_view(v: Seq<(PeerId, u8)>) -> Seq<(Seq<u8>, u8)> {
    v.map_values(|e: (PeerId, u8)| (e.0@, e.1))
}

/// One step of a filter over a growing prefix.
pub proof fn lemma_filter_take_step<A>(s: Seq<A>, k: int, pred: spec_fn(A) -> bool)
    requires
        0 <= k < s.len(),
    ensures
        s.take(k + 1).filter(pred) == (if pred(s[k]) {
            s.take(k).filter(pred).push(s[k])
        } else {
            s.take(k).filter(pred)
        }),
{
    reveal(Seq::filter);
    assert(s.take(k + 1).drop_last() =~= s.take(k));
    assert(s.take(k + 1).last() == s[k]);
}


// ---------------------------------------------------------------------------
// Choosing a checkpoint from what the peers report
// ---------------------------------------------------------------------------

/// The checkpoint that `p` reports: its head checkpoint when `use_head`, else its finalized one.
pub open spec fn reported(p: CachedPeerView, use_head: bool) -> Option<Checkpoint> {
    if use_head {
        p.head_checkpoint
    } else {
        p.finalized_checkpoint
    }
}

/// How many of `peers` report `c`.
pub open spec fn tally(peers: Seq<CachedPeerView>, use_head: bool, c: Checkpoint) -> nat
    decreases peers.len(),
{
    if peers.len() == 0 {
        0
    } else {
        tally(peers.drop_last(), use_head, c) + if reported(peers.last(), use_head) == Some(c) {
            1nat
        } else {
            0nat
        }
    }
}

/// No common checkpoint can be named: no peer reports one, or at least two different
/// checkpoints are reported and each of them by a single peer.
pub open spec fn no_common_checkpoint(peers: Seq<CachedPeerView>, use_head: bool) -> bool {
    ||| forall|i: int| 0 <= i < peers.len() ==> (#[trigger] reported(peers[i], use_head)) is None
    ||| {
        &&& forall|c: Checkpoint| #[trigger] tally(peers, use_head, c) <= 1
        &&& exists|i: int, j: int|
            0 <= i < peers.len() && 0 <= j < peers.len() && (#[trigger] reported(
                peers[i],
                use_head,
            )) is Some && (#[trigger] reported(peers[j], use_head)) is Some && reported(
                peers[i],
                use_head,
            ) != reported(peers[j], use_head)
    }
}

/// `c` is reported by the most peers, and has the highest slot among the checkpoints reported
/// that often.
pub open spec fn is_common_checkpoint(peers: Seq<CachedPeerView>, use_head: bool, c: Checkpoint) -> bool {
    &&& tally(peers, use_head, c) >= 1
    &&& forall|d: Checkpoint| #[trigger] tally(peers, use_head, d) <= tally(peers, use_head, c)
    &&& forall|d: Checkpoint|
        #[trigger] tally(peers, use_head, d) == tally(peers, use_head, c) ==> d.slot <= c.slot
}

/// `d` is reported less often than `c`, or as often and with a slot no higher (`or_equal`)
/// or lower (`!or_equal`).
pub open spec fn ranks_below(
    peers: Seq<CachedPeerView>,
    use_head: bool,
    d: Checkpoint,
    c: Checkpoint,
    or_equal: bool,
) -> bool {
    ||| tally(peers, use_head, d) < tally(peers, use_head, c)
    ||| tally(peers, use_head, d) == tally(peers, use_head, c) && (if or_equal {
        d.slot <= c.slot
    } else {
        d.slot < c.slot
    })
}

/// The checkpoint reported by the peer at `jb` ranks highest among all reported ones, and
/// strictly above those reported by the peers before it: the peer at `jb` is the first to
/// report a most-reported checkpoint of highest slot.
pub open spec fn is_first_best(peers: Seq<CachedPeerView>, use_head: bool, jb: int) -> bool {
    &&& 0 <= jb < peers.len()
    &&& reported(peers[jb], use_head) matches Some(c) && {
        &&& forall|j: int|
            0 <= j < peers.len() ==> match #[trigger] reported(peers[j], use_head) {
                Some(d) => ranks_below(peers, use_head, d, c, true),
                None => true,
            }
        &&& forall|j: int|
            0 <= j < jb ==> match #[trigger] reported(peers[j], use_head) {
                Some(d) => ranks_below(peers, use_head, d, c, false),
                None => true,
            }
    }
}

/// `c` is the checkpoint reported by the first peer to report a most-reported checkpoint of
/// highest slot: the one chosen among checkpoints that tie on count and slot.
pub open spec fn is_chosen_checkpoint(peers: Seq<CachedPeerView>, use_head: bool, c: Checkpoint) -> bool {
    exists|jb: int| #[trigger] is_first_best(peers, use_head, jb) && reported(peers[jb], use_head) == Some(c)
}

/// What the choice of a common checkpoint among `peers` gives: `None` exactly when no common
/// checkpoint can be named, else a most-reported checkpoint of highest slot, the first
/// reported among those that tie.
pub open spec fn common_checkpoint_result(
    peers: Seq<CachedPeerView>,
    use_head: bool,
    r: Option<Checkpoint>,
) -> bool {
    match r {
        None => no_common_checkpoint(peers, use_head),
        Some(c) => !no_common_checkpoint(peers, use_head) && is_common_checkpoint(
            peers,
            use_head,
            c,
        ) && is_chosen_checkpoint(peers, use_head, c),
    }
}

/// At most one peer is the first to report a most-reported checkpoint of highest slot.
proof fn lemma_first_best_unique(peers: Seq<CachedPeerView>, use_head: bool, j1: int, j2: int)
    requires
        is_first_best(peers, use_head, j1),
        is_first_best(peers, use_head, j2),
    ensures
        j1 == j2,
{
    if j1 < j2 {
        assert(reported(peers[j1], use_head) is Some);
    } else if j2 < j1 {
        assert(reported(peers[j2], use_head) is Some);
    }
}

/// The checkpoint chosen among ties is unique.
proof fn lemma_chosen_checkpoint_unique(peers: Seq<CachedPeerView>, use_head: bool, c1: Checkpoint, c2: Checkpoint)
    requires
        is_chosen_checkpoint(peers, use_head, c1),
        is_chosen_checkpoint(peers, use_head, c2),
    ensures
        c1 == c2,
{
    let j1 = choose|jb: int| #[trigger] is_first_best(peers, use_head, jb) && reported(peers[jb], use_head) == Some(c1);
    let j2 = choose|jb: int| #[trigger] is_first_best(peers, use_head, jb) && reported(peers[jb], use_head) == Some(c2);
    lemma_first_best_unique(peers, use_head, j1, j2);
}

pub proof fn lemma_tally_take_step(peers: Seq<CachedPeerView>, use_head: bool, c: Checkpoint, b: int)
    requires
        0 <= b < peers.len(),
    ensures
        tally(peers.take(b + 1), use_head, c) == tally(peers.take(b), use_head, c) + if reported(
            peers[b],
            use_head,
        ) == Some(c) {
            1nat
        } else {
            0nat
        },
{
    assert(peers.take(b + 1).drop_last() =~= peers.take(b));
}

/// A checkpoint is reported by some peer exactly when its tally is positive.
pub proof fn lemma_tally_positive(peers: Seq<CachedPeerView>, use_head: bool, c: Checkpoint)
    ensures
        tally(peers, use_head, c) >= 1 <==> exists|i: int|
            0 <= i < peers.len() && reported(#[trigger] peers[i], use_head) == Some(c),
    decreases peers.len(),
{
    if peers.len() > 0 {
        let init = peers.drop_last();
        lemma_tally_positive(init, use_head, c);
        if tally(peers, use_head, c) >= 1 {
            if reported(peers.last(), use_head) != Some(c) {
                let i = choose|i: int| 0 <= i < init.len() && reported(#[trigger] init[i], use_head) == Some(c);
                assert(peers[i] == init[i]);
            } else {
                assert(peers[peers.len() - 1] == peers.last());
            }
        }
        if exists|i: int| 0 <= i < peers.len() && reported(#[trigger] peers[i], use_head) == Some(c) {
            let i = choose|i: int| 0 <= i < peers.len() && reported(#[trigger] peers[i], use_head) == Some(c);
            if i < peers.len() - 1 {
                assert(init[i] == peers[i]);
            }
        }
    }
}

pub open spec fn int_order(a: int, b: int) -> int {
    if a < b {
        -1
    } else if a > b {
        1
    } else {
        0
    }
}

pub open spec fn opt_order(a: Option<u64>, b: Option<u64>) -> int {
    match (a, b) {
        (None, None) => 0,
        (None, Some(_)) => -1,
        (Some(_), None) => 1,
        (Some(x), Some(y)) => int_order(x as int, y as int),
    }
}

pub open spec fn head_slot(p: CachedPeerView) -> u64 {
    match p.head_checkpoint {
        Some(c) => c.slot,
        None => 0,
    }
}

/// Order of head candidates by (head slot, score, last status update, peer id) when `by_slot`,
/// else by (score, head slot, last status update, peer id).
pub open spec fn candidate_order(p: CachedPeerView, q: CachedPeerView, by_slot: bool) -> int {
    let slot = int_order(head_slot(p) as int, head_slot(q) as int);
    let score = int_order(p.peer_score as int, q.peer_score as int);
    let first = if by_slot {
        slot
    } else {
        score
    };
    let second = if by_slot {
        score
    } else {
        slot
    };
    if first != 0 {
        first
    } else if second != 0 {
        second
    } else if opt_order(p.last_status_update, q.last_status_update) != 0 {
        opt_order(p.last_status_update, q.last_status_update)
    } else {
        bytes_order(p.peer_id, q.peer_id)
    }
}

pub proof fn lemma_candidate_order_antisym(p: CachedPeerView, q: CachedPeerView, by_slot: bool)
    ensures
        candidate_order(p, q, by_slot) == -candidate_order(q, p, by_slot),
{
    crate::bytes::lemma_bytes_order_antisym(p.peer_id, q.peer_id);
}

pub proof fn lemma_candidate_order_trans(
    p: CachedPeerView,
    q: CachedPeerView,
    r: CachedPeerView,
    by_slot: bool,
)
    requires
        candidate_order(p, q, by_slot) <= 0,
        candidate_order(q, r, by_slot) <= 0,
    ensures
        candidate_order(p, r, by_slot) <= 0,
{
    crate::bytes::lemma_bytes_order_range(p.peer_id, q.peer_id);
    crate::bytes::lemma_bytes_order_range(q.peer_id, r.peer_id);
    crate::bytes::lemma_bytes_order_range(p.peer_id, r.peer_id);
    if bytes_order(p.peer_id, q.peer_id) <= 0 && bytes_order(q.peer_id, r.peer_id) <= 0 {
        crate::bytes::lemma_bytes_order_trans(p.peer_id, q.peer_id, r.peer_id);
    }
}

/// What taking the greatest head candidate in `candidate_order` gives: `None` for no
/// candidates, else the head checkpoint of a candidate that no other candidate exceeds.
pub open spec fn highest_result(cands: Seq<CachedPeerView>, by_slot: bool, r: Option<Checkpoint>) -> bool {
    if cands.len() == 0 {
        r is None
    } else {
        exists|k: int|
            0 <= k < cands.len() && r == (#[trigger] cands[k]).head_checkpoint && forall|j: int|
                0 <= j < cands.len() ==> candidate_order(#[trigger] cands[j], cands[k], by_slot) <= 0
    }
}

/// The connected peers that report a head checkpoint, in table order.
pub open spec fn head_candidates(table: Seq<CachedPeerView>) -> Seq<CachedPeerView> {
    table.filter(|p: CachedPeerView| is_connected(p) && p.head_checkpoint is Some)
}

/// Twice the median of a sorted, non-empty sequence.
pub open spec fn median_x2(sorted: Seq<u128>) -> int {
    let mid = sorted.len() / 2;
    if sorted.len() % 2 == 0 {
        sorted[mid - 1] + sorted[mid as int]
    } else {
        2 * sorted[mid as int]
    }
}

/// The median of a sorted, non-empty sequence, halves rounded down.
pub open spec fn median_of(sorted: Seq<u128>) -> int {
    let mid = sorted.len() / 2;
    if sorted.len() % 2 == 0 {
        (sorted[mid - 1] + sorted[mid as int]) / 2
    } else {
        sorted[mid as int] as int
    }
}

/// Twice the distance of `slot` from the median whose double is `median_x2`.
pub open spec fn deviation_x2(slot: u64, median_x2: int) -> int {
    if 2 * slot >= median_x2 {
        2 * slot - median_x2
    } else {
        median_x2 - 2 * slot
    }
}

/// The modified z-score test: a slot is in the cluster when its deviation is at most
/// 35000/6745 times the median deviation (or zero, when the median deviation is zero).
pub open spec fn cluster_member(slot: u64, median_x2: int, median_deviation_x2: int) -> bool {
    if median_deviation_x2 == 0 {
        deviation_x2(slot, median_x2) == 0
    } else {
        deviation_x2(slot, median_x2) * MODIFIED_Z_SCORE_NUMERATOR <= median_deviation_x2
            * MODIFIED_Z_SCORE_OUTLIER_THRESHOLD
    }
}

pub open spec fn candidate_slots(cands: Seq<CachedPeerView>) -> Seq<u128> {
    cands.map_values(|p: CachedPeerView| head_slot(p) as u128)
}

pub open spec fn cluster_median_x2(cands: Seq<CachedPeerView>) -> int {
    median_x2(crate::sorting::sorted_u128(candidate_slots(cands)))
}

pub open spec fn cluster_deviations(cands: Seq<CachedPeerView>) -> Seq<u128> {
    cands.map_values(|p: CachedPeerView| deviation_x2(head_slot(p), cluster_median_x2(cands)) as u128)
}

pub open spec fn cluster_median_deviation_x2(cands: Seq<CachedPeerView>) -> int {
    median_of(crate::sorting::sorted_u128(cluster_deviations(cands)))
}

/// The candidates whose head slot lies in the cluster around the median slot.
pub open spec fn slot_cluster(cands: Seq<CachedPeerView>) -> Seq<CachedPeerView> {
    cands.filter(
        |p: CachedPeerView|
            cluster_member(
                head_slot(p),
                cluster_median_x2(cands),
                cluster_median_deviation_x2(cands),
            ),
    )
}

/// What `preferred_highest_checkpoint` gives for a peer table.
pub open spec fn preferred_result(table: Seq<CachedPeerView>, r: Option<Checkpoint>) -> bool {
    let connected = connected_peers(table);
    let cands = head_candidates(table);
    if !no_common_checkpoint(connected, true) {
        r matches Some(c) && is_common_checkpoint(connected, true, c) && is_chosen_checkpoint(
            connected,
            true,
            c,
        )
    } else if cands.len() == 0 {
        r is None
    } else if cands.len() <= 2 {
        highest_result(cands, !no_common_checkpoint(connected, false), r)
    } else {
        highest_result(slot_cluster(cands), true, r)
    }
}


/// Twice the median of the sorted, non-empty `sorted_slots`.
fn median_slot_x2(sorted_slots: &Vec<u128>) -> (r: u128)
    requires
        sorted_slots@.len() >= 1,
        forall|j: int| 0 <= j < sorted_slots@.len() ==> #[trigger] sorted_slots@[j] <= u64::MAX,
    ensures
        r == median_x2(sorted_slots@),
        r <= 2 * (u64::MAX as int),
{
    let mid = sorted_slots.len() / 2;
    if sorted_slots.len() % 2 == 0 {
        sorted_slots[mid - 1] + sorted_slots[mid]
    } else {
        sorted_slots[mid] * 2
    }
}

/// The median of the sorted, non-empty `sorted_values`, halves rounded down.
fn median_u128(sorted_values: &Vec<u128>) -> (r: u128)
    requires
        sorted_values@.len() >= 1,
        forall|j: int| 0 <= j < sorted_values@.len() ==> #[trigger] sorted_values@[j] <= 2 * (
        u64::MAX as int),
    ensures
        r == median_of(sorted_values@),
        r <= 2 * (u64::MAX as int),
{
    let mid = sorted_values.len() / 2;
    if sorted_values.len() % 2 == 0 {
        (sorted_values[mid - 1] + sorted_values[mid]) / 2
    } else {
        sorted_values[mid]
    }
}

/// Twice the distance of `slot` from the median whose double is `median_slot_x2`.
fn slot_deviation_x2(slot: u64, median_slot_x2: u128) -> (r: u128)
    requires
        median_slot_x2 <= 2 * (u64::MAX as int),
    ensures
        r == deviation_x2(slot, median_slot_x2 as int),
        r <= 2 * (u64::MAX as int),
{
    let doubled = (slot as u128) * 2;
    if doubled >= median_slot_x2 {
        doubled - median_slot_x2
    } else {
        median_slot_x2 - doubled
    }
}

/// Whether `slot` passes the modified z-score test against the median slot and the median
/// deviation (both doubled).
fn slot_is_cluster_member(slot: u64, median_slot_x2: u128, median_deviation_x2: u128) -> (r: bool)
    requires
        median_slot_x2 <= 2 * (u64::MAX as int),
        median_deviation_x2 <= 2 * (u64::MAX as int),
    ensures
        r == cluster_member(slot, median_slot_x2 as int, median_deviation_x2 as int),
{
    let deviation = slot_deviation_x2(slot, median_slot_x2);
    if median_deviation_x2 == 0 {
        return deviation == 0;
    }
    deviation * MODIFIED_Z_SCORE_NUMERATOR <= median_deviation_x2 * MODIFIED_Z_SCORE_OUTLIER_THRESHOLD
}

/// The table of peers that the lean node keeps, with its own head and finalized checkpoints.
pub struct NetworkState {
    pub peer_table: Vec<CachedPeer>,
    pub head_checkpoint: Checkpoint,
    pub finalized_checkpoint: Checkpoint,
    /// Number of status updates recorded so far.
    pub status_updates: u64,
}

impl NetworkState {
    pub open spec fn table(&self) -> Seq<CachedPeerView> {
        self.peer_table@.map_values(|p: CachedPeer| p@)
    }

    /// Every peer id occurs once in the table.
    pub open spec fn wf(&self) -> bool {
        ids_unique(self.table())
    }

    pub fn new(head_checkpoint: Checkpoint, finalized_checkpoint: Checkpoint) -> (r: NetworkState)
        ensures
            r.wf(),
            r.table() == Seq::<CachedPeerView>::empty(),
            r.head_checkpoint == head_checkpoint,
            r.finalized_checkpoint == finalized_checkpoint,
    {
        let r = NetworkState {
            peer_table: Vec::new(),
            head_checkpoint,
            finalized_checkpoint,
            status_updates: 0,
        };
        assert(r.table() =~= Seq::<CachedPeerView>::empty());
        r
    }

    /// Index of the entry for `id`, if the table has one.
    fn find_peer(&self, id: &PeerId) -> (r: Option<usize>)
        requires
            self.wf(),
        ensures
            match r {
                Some(i) => i < self.table().len() && self.table()[i as int].peer_id == id@,
                None => !has_peer(self.table(), id@),
            },
    {
        let mut i: usize = 0;
        while i < self.peer_table.len()
            invariant
                i <= self.peer_table.len(),
                forall|k: int| 0 <= k < i ==> self.table()[k].peer_id != id@,
            decreases self.peer_table.len() - i,
        {
            if bytes_equal(&self.peer_table[i].peer_id.0, &id.0) {
                return Some(i);
            }
            i = i + 1;
        }
        None
    }

    /// Records that `peer_id` was seen, with the given state and direction.
    pub fn upsert_peer(
        &mut self,
        peer_id: PeerId,
        address: Option<Vec<u8>>,
        state: ConnectionState,
        direction: Direction,
    )
        requires
            old(self).wf(),
        ensures
            final(self).wf(),
            final(self).table() == upserted(
                old(self).table(),
                peer_id@,
                opt_bytes_view(address),
                state,
                direction,
            ),
            final(self).head_checkpoint == old(self).head_checkpoint,
            final(self).finalized_checkpoint == old(self).finalized_checkpoint,
            final(self).status_updates == old(self).status_updates,
    {
        let ghost old_table = self.table();
        match self.find_peer(&peer_id) {
            Some(i) => {
                let old_peer = &self.peer_table[i];
                let new_address = match address {
                    Some(a) => Some(a),
                    None => copy_opt_bytes(&old_peer.last_seen_p2p_address),
                };
                let updated = CachedPeer {
                    peer_id: old_peer.peer_id.duplicate(),
                    last_seen_p2p_address: new_address,
                    state,
                    direction,
                    head_checkpoint: old_peer.head_checkpoint,
                    finalized_checkpoint: old_peer.finalized_checkpoint,
                    last_status_update: old_peer.last_status_update,
                    peer_score: old_peer.peer_score,
                };
                self.peer_table.set(i, updated);
                proof {
                    assert(has_peer(old_table, peer_id@));
                    let j = peer_index(old_table, peer_id@);
                    assert(j == i as int);
                    assert(self.table() =~= upserted(
                        old_table,
                        peer_id@,
                        opt_bytes_view(address),
                        state,
                        direction,
                    ));
                }
            },
            None => {
                let p = CachedPeer::new(peer_id, address, state, direction);
                self.peer_table.push(p);
                proof {
                    assert(self.table() =~= old_table.push(p@));
                }
            },
        }
    }

    /// Number of connected peers.
    pub fn connected_peer_count(&self) -> (r: usize)
        ensures
            r == connected_peers(self.table()).len(),
    {
        let mut count: usize = 0;
        let mut k: usize = 0;
        while k < self.peer_table.len()
            invariant
                k <= self.peer_table.len(),
                count == self.table().take(k as int).filter(|p: CachedPeerView| is_connected(p)).len(),
                count <= k,
            decreases self.peer_table.len() - k,
        {
            proof {
                lemma_filter_take_step(self.table(), k as int, |p: CachedPeerView| is_connected(p));
            }
            if matches!(self.peer_table[k].state, ConnectionState::Connected) {
                count = count + 1;
            }
            k = k + 1;
        }
        assert(self.table().take(k as int) =~= self.table());
        count
    }

    /// The (id, score) pairs of the peers that `f` selects, in table order.
    fn ids_with_scores_where(&self, f: PeerFilter) -> (r: Vec<(PeerId, u8)>)
        ensures
            id_score_view(r@) == ids_with_scores(self.table(), f),
    {
        let mut out: Vec<(PeerId, u8)> = Vec::new();
        let mut k: usize = 0;
        let ghost pred = |p: CachedPeerView| peer_filter_holds(f, p);
        let ghost to_pair = |p: CachedPeerView| (p.peer_id, p.peer_score);
        while k < self.peer_table.len()
            invariant
                k <= self.peer_table.len(),
                pred == (|p: CachedPeerView| peer_filter_holds(f, p)),
                to_pair == (|p: CachedPeerView| (p.peer_id, p.peer_score)),
                id_score_view(out@) == self.table().take(k as int).filter(pred).map_values(to_pair),
            decreases self.peer_table.len() - k,
        {
            proof {
                lemma_filter_take_step(self.table(), k as int, pred);
            }
            let p = &self.peer_table[k];
            let selected = match p.state {
                ConnectionState::Connected => match f {
                    PeerFilter::Connected => true,
                    PeerFilter::HeadIs(c) => match p.head_checkpoint {
                        Some(h) => checkpoint_equal(&h, &c),
                        None => false,
                    },
                    PeerFilter::HeadAtOrAbove(s) => match p.head_checkpoint {
                        Some(h) => h.slot >= s,
                        None => false,
                    },
                },
                _ => false,
            };
            assert(selected == pred(self.table()[k as int]));
            if selected {
                let ghost before = out@;
                out.push((p.peer_id.duplicate(), p.peer_score));
                assert(id_score_view(out@) =~= id_score_view(before).push(
                    to_pair(self.table()[k as int]),
                ));
                assert(self.table().take(k as int).filter(pred).push(self.table()[k as int]).map_values(
                    to_pair,
                ) =~= self.table().take(k as int).filter(pred).map_values(to_pair).push(
                    to_pair(self.table()[k as int]),
                ));
            }
            k = k + 1;
        }
        assert(self.table().take(k as int) =~= self.table());
        out
    }

    /// The (id, score) pairs of the connected peers.
    pub fn connected_peer_ids_with_scores(&self) -> (r: Vec<(PeerId, u8)>)
        ensures
            id_score_view(r@) == ids_with_scores(self.table(), PeerFilter::Connected),
    {
        self.ids_with_scores_where(PeerFilter::Connected)
    }

    /// The (id, score) pairs of the connected peers whose head checkpoint is `checkpoint`.
    pub fn connected_peer_ids_with_scores_matching_head(&self, checkpoint: Checkpoint) -> (r: Vec<
        (PeerId, u8),
    >)
        ensures
            id_score_view(r@) == ids_with_scores(self.table(), PeerFilter::HeadIs(checkpoint)),
    {
        self.ids_with_scores_where(PeerFilter::HeadIs(checkpoint))
    }

    /// The (id, score) pairs of the connected peers whose head checkpoint is at or above
    /// `min_slot`.
    pub fn connected_peer_ids_with_scores_at_or_above_slot(&self, min_slot: u64) -> (r: Vec<
        (PeerId, u8),
    >)
        ensures
            id_score_view(r@) == ids_with_scores(self.table(), PeerFilter::HeadAtOrAbove(min_slot)),
    {
        self.ids_with_scores_where(PeerFilter::HeadAtOrAbove(min_slot))
    }

    /// The entry for `id`, if the table has one.
    pub fn cached_peer(&self, id: &PeerId) -> (r: Option<CachedPeer>)
        requires
            self.wf(),
        ensures
            r is Some <==> has_peer(self.table(), id@),
            r matches Some(p) ==> p@ == self.table()[peer_index(self.table(), id@)],
    {
        match self.find_peer(id) {
            Some(i) => {
                proof {
                    assert(has_peer(self.table(), id@));
                    assert(peer_index(self.table(), id@) == i as int);
                }
                Some(self.peer_table[i].duplicate())
            },
            None => None,
        }
    }

    /// Records the head and finalized checkpoints that `peer_id` reported, and when.
    pub fn update_peer_checkpoints(
        &mut self,
        peer_id: PeerId,
        head_checkpoint: Checkpoint,
        finalized_checkpoint: Checkpoint,
    )
        requires
            old(self).wf(),
        ensures
            final(self).wf(),
            final(self).table() == with_checkpoints(
                old(self).table(),
                peer_id@,
                head_checkpoint,
                finalized_checkpoint,
                old(self).status_updates,
            ),
            final(self).status_updates == (if old(self).status_updates < u64::MAX {
                old(self).status_updates + 1
            } else {
                old(self).status_updates as int
            }),
            final(self).head_checkpoint == old(self).head_checkpoint,
            final(self).finalized_checkpoint == old(self).finalized_checkpoint,
    {
        let ghost old_table = self.table();
        if let Some(i) = self.find_peer(&peer_id) {
            let old_peer = &self.peer_table[i];
            let updated = CachedPeer {
                peer_id: old_peer.peer_id.duplicate(),
                last_seen_p2p_address: copy_opt_bytes(&old_peer.last_seen_p2p_address),
                state: old_peer.state,
                direction: old_peer.direction,
                head_checkpoint: Some(head_checkpoint),
                finalized_checkpoint: Some(finalized_checkpoint),
                last_status_update: Some(self.status_updates),
                peer_score: old_peer.peer_score,
            };
            self.peer_table.set(i, updated);
            self.status_updates = self.status_updates.saturating_add(1);
            proof {
                assert(peer_index(old_table, peer_id@) == i as int);
                assert(self.table() =~= with_checkpoints(
                    old_table,
                    peer_id@,
                    head_checkpoint,
                    finalized_checkpoint,
                    (old(self)).status_updates,
                ));
            }
        } else {
            self.status_updates = self.status_updates.saturating_add(1);
        }
    }


    /// Indices of the connected peers (that also report a head checkpoint, when `heads_only`),
    /// in table order.
    fn connected_indices(&self, heads_only: bool) -> (r: Vec<usize>)
        ensures
            forall|k: int| 0 <= k < r@.len() ==> (#[trigger] r@[k]) < self.table().len(),
            pick(self.table(), r@) == if heads_only {
                head_candidates(self.table())
            } else {
                connected_peers(self.table())
            },
    {
        let ghost pred = if heads_only {
            |p: CachedPeerView| is_connected(p) && p.head_checkpoint is Some
        } else {
            |p: CachedPeerView| is_connected(p)
        };
        let mut out: Vec<usize> = Vec::new();
        let mut k: usize = 0;
        while k < self.peer_table.len()
            invariant
                k <= self.peer_table.len(),
                pred == (if heads_only {
                    |p: CachedPeerView| is_connected(p) && p.head_checkpoint is Some
                } else {
                    |p: CachedPeerView| is_connected(p)
                }),
                forall|j: int| 0 <= j < out@.len() ==> (#[trigger] out@[j]) < k,
                pick(self.table(), out@) == self.table().take(k as int).filter(pred),
            decreases self.peer_table.len() - k,
        {
            proof {
                lemma_filter_take_step(self.table(), k as int, pred);
            }
            let p = &self.peer_table[k];
            let selected = match p.state {
                ConnectionState::Connected => !heads_only || p.head_checkpoint.is_some(),
                _ => false,
            };
            assert(selected == pred(self.table()[k as int]));
            if selected {
                let ghost before = out@;
                out.push(k);
                assert(pick(self.table(), out@) =~= pick(self.table(), before).push(
                    self.table()[k as int],
                ));
            }
            k = k + 1;
        }
        assert(self.table().take(k as int) =~= self.table());
        out
    }

    /// How many of the peers at `idx` report `c`.
    fn count_reports(&self, idx: &Vec<usize>, use_head: bool, c: &Checkpoint) -> (r: usize)
        requires
            forall|k: int| 0 <= k < idx@.len() ==> (#[trigger] idx@[k]) < self.table().len(),
        ensures
            r == tally(pick(self.table(), idx@), use_head, *c),
    {
        let ghost peers = pick(self.table(), idx@);
        let mut n: usize = 0;
        let mut b: usize = 0;
        while b < idx.len()
            invariant
                b <= idx.len(),
                peers == pick(self.table(), idx@),
                forall|k: int| 0 <= k < idx@.len() ==> (#[trigger] idx@[k]) < self.table().len(),
                n == tally(peers.take(b as int), use_head, *c),
                n <= b,
            decreases idx.len() - b,
        {
            proof {
                lemma_tally_take_step(peers, use_head, *c, b as int);
            }
            let p = &self.peer_table[idx[b]];
            let rep = if use_head {
                p.head_checkpoint
            } else {
                p.finalized_checkpoint
            };
            assert(rep == reported(peers[b as int], use_head));
            if let Some(d) = rep {
                if checkpoint_equal(&d, c) {
                    n = n + 1;
                }
            }
            b = b + 1;
        }
        assert(peers.take(b as int) =~= peers);
        n
    }

    /// The checkpoint reported by the most peers at `idx` (highest slot among equals), unless
    /// every reported checkpoint has a single reporter and there are several of them.
    fn common_checkpoint_from_peers(&self, idx: &Vec<usize>, use_head: bool) -> (r: Option<Checkpoint>)
        requires
            forall|k: int| 0 <= k < idx@.len() ==> (#[trigger] idx@[k]) < self.table().len(),
        ensures
            common_checkpoint_result(pick(self.table(), idx@), use_head, r),
    {
        let ghost peers = pick(self.table(), idx@);
        let mut best: Option<Checkpoint> = None;
        let mut best_count: usize = 0;
        let mut first: Option<Checkpoint> = None;
        let mut several = false;
        let mut a: usize = 0;
        let ghost mut jb: int = 0;
        while a < idx.len()
            invariant
                a <= idx.len(),
                peers == pick(self.table(), idx@),
                forall|k: int| 0 <= k < idx@.len() ==> (#[trigger] idx@[k]) < self.table().len(),
                best is None <==> first is None,
                first is None <==> forall|j: int|
                    0 <= j < a ==> (#[trigger] reported(peers[j], use_head)) is None,
                first matches Some(f) ==> exists|j: int|
                    0 <= j < a && #[trigger] reported(peers[j], use_head) == Some(f),
                several <==> exists|j: int|
                    0 <= j < a && (#[trigger] reported(peers[j], use_head)) is Some && reported(
                        peers[j],
                        use_head,
                    ) != first,
                best matches Some(bc) ==> {
                    &&& best_count == tally(peers, use_head, bc)
                    &&& best_count >= 1
                    &&& forall|j: int|
                        0 <= j < a ==> match #[trigger] reported(peers[j], use_head) {
                            Some(d) => ranks_below(peers, use_head, d, bc, true),
                            None => true,
                        }
                    &&& 0 <= jb < a
                    &&& reported(peers[jb], use_head) == Some(bc)
                    &&& forall|j: int|
                        0 <= j < jb ==> match #[trigger] reported(peers[j], use_head) {
                            Some(d) => ranks_below(peers, use_head, d, bc, false),
                            None => true,
                        }
                },
            decreases idx.len() - a,
        {
            let p = &self.peer_table[idx[a]];
            let rep = if use_head {
                p.head_checkpoint
            } else {
                p.finalized_checkpoint
            };
            assert(rep == reported(peers[a as int], use_head));
            if let Some(c) = rep {
                let cnt = self.count_reports(idx, use_head, &c);
                proof {
                    lemma_tally_positive(peers, use_head, c);
                }
                match first {
                    None => {
                        first = Some(c);
                    },
                    Some(f) => {
                        if !checkpoint_equal(&f, &c) {
                            several = true;
                        }
                    },
                }
                let replace = match best {
                    None => true,
                    Some(bc) => cnt > best_count || (cnt == best_count && c.slot > bc.slot),
                };
                if replace {
                    best = Some(c);
                    best_count = cnt;
                    proof {
                        jb = a as int;
                    }
                }
            }
            a = a + 1;
        }
        proof {
            assert forall|d: Checkpoint| #[trigger] tally(peers, use_head, d) >= 1 implies exists|j: int|
                0 <= j < peers.len() && reported(#[trigger] peers[j], use_head) == Some(d) by {
                lemma_tally_positive(peers, use_head, d);
            }
        }
        match best {
            None => {
                assert(no_common_checkpoint(peers, use_head));
                None
            },
            Some(bc) => {
                if best_count == 1 && several {
                    proof {
                        let f = first.unwrap();
                        let i = choose|j: int| 0 <= j < a && #[trigger] reported(peers[j], use_head) == Some(f);
                        let j = choose|j: int|
                            0 <= j < a && (#[trigger] reported(peers[j], use_head)) is Some && reported(
                                peers[j],
                                use_head,
                            ) != first;
                        assert(reported(peers[i], use_head) != reported(peers[j], use_head));
                        assert forall|c: Checkpoint| #[trigger] tally(peers, use_head, c) <= 1 by {
                            if tally(peers, use_head, c) >= 1 {
                                let k = choose|k: int|
                                    0 <= k < peers.len() && reported(#[trigger] peers[k], use_head) == Some(c);
                                assert(reported(peers[k], use_head) == Some(c));
                            }
                        }
                    }
                    None
                } else {
                    proof {
                        assert forall|d: Checkpoint| #[trigger] tally(peers, use_head, d) <= tally(peers, use_head, bc) by {
                            if tally(peers, use_head, d) >= 1 {
                                let k = choose|k: int|
                                    0 <= k < peers.len() && reported(#[trigger] peers[k], use_head) == Some(d);
                                assert(reported(peers[k], use_head) == Some(d));
                            }
                        }
                        assert forall|d: Checkpoint| #[trigger] tally(peers, use_head, d) == tally(peers, use_head, bc)
                            implies d.slot <= bc.slot by {
                            let k = choose|k: int|
                                0 <= k < peers.len() && reported(#[trigger] peers[k], use_head) == Some(d);
                            assert(reported(peers[k], use_head) == Some(d));
                        }
                        assert(is_first_best(peers, use_head, jb));
                        if no_common_checkpoint(peers, use_head) {
                            let f = first.unwrap();
                            let i = choose|j: int| 0 <= j < a && #[trigger] reported(peers[j], use_head) == Some(f);
                            assert(reported(peers[i], use_head) is Some);
                            // every checkpoint has a single reporter, so best_count is 1, and then
                            // two different reported checkpoints make `several` true
                            assert(tally(peers, use_head, bc) <= 1);
                            let (x, y) = choose|x: int, y: int|
                                0 <= x < peers.len() && 0 <= y < peers.len() && (#[trigger] reported(
                                    peers[x],
                                    use_head,
                                )) is Some && (#[trigger] reported(peers[y], use_head)) is Some
                                    && reported(peers[x], use_head) != reported(peers[y], use_head);
                            if reported(peers[x], use_head) != first {
                                assert(reported(peers[x], use_head) is Some);
                            } else {
                                assert(reported(peers[y], use_head) != first);
                            }
                        }
                    }
                    Some(bc)
                }
            },
        }
    }


    /// `candidate_order` of the entries at `i` and `j`.
    fn order_candidates(&self, i: usize, j: usize, by_slot: bool) -> (r: i8)
        requires
            i < self.table().len(),
            j < self.table().len(),
        ensures
            r as int == candidate_order(self.table()[i as int], self.table()[j as int], by_slot),
    {
        let p = &self.peer_table[i];
        let q = &self.peer_table[j];
        let ps: u64 = match p.head_checkpoint {
            Some(c) => c.slot,
            None => 0,
        };
        let qs: u64 = match q.head_checkpoint {
            Some(c) => c.slot,
            None => 0,
        };
        let slot: i8 = if ps < qs {
            -1
        } else if ps > qs {
            1
        } else {
            0
        };
        let score: i8 = if p.peer_score < q.peer_score {
            -1
        } else if p.peer_score > q.peer_score {
            1
        } else {
            0
        };
        let first = if by_slot {
            slot
        } else {
            score
        };
        let second = if by_slot {
            score
        } else {
            slot
        };
        if first != 0 {
            return first;
        }
        if second != 0 {
            return second;
        }
        let last: i8 = match (p.last_status_update, q.last_status_update) {
            (None, None) => 0,
            (None, Some(_)) => -1,
            (Some(_), None) => 1,
            (Some(x), Some(y)) => if x < y {
                -1
            } else if x > y {
                1
            } else {
                0
            },
        };
        if last != 0 {
            return last;
        }
        compare_bytes(&p.peer_id.0, &q.peer_id.0)
    }

    /// The head checkpoint of the greatest peer at `idx` in `candidate_order`.
    fn highest_checkpoint(&self, idx: &Vec<usize>, by_slot: bool) -> (r: Option<Checkpoint>)
        requires
            forall|k: int| 0 <= k < idx@.len() ==> (#[trigger] idx@[k]) < self.table().len(),
        ensures
            highest_result(pick(self.table(), idx@), by_slot, r),
    {
        let ghost peers = pick(self.table(), idx@);
        if idx.len() == 0 {
            return None;
        }
        let mut best: usize = 0;
        let mut a: usize = 1;
        proof {
            crate::bytes::lemma_bytes_order_eq(peers[0].peer_id, peers[0].peer_id);
        }
        while a < idx.len()
            invariant
                1 <= a <= idx.len(),
                best < a,
                peers == pick(self.table(), idx@),
                forall|k: int| 0 <= k < idx@.len() ==> (#[trigger] idx@[k]) < self.table().len(),
                forall|k: int|
                    0 <= k < a ==> candidate_order(#[trigger] peers[k], peers[best as int], by_slot)
                        <= 0,
            decreases idx.len() - a,
        {
            let ord = self.order_candidates(idx[a], idx[best], by_slot);
            if ord > 0 {
                proof {
                    lemma_candidate_order_antisym(peers[a as int], peers[best as int], by_slot);
                    crate::bytes::lemma_bytes_order_eq(peers[a as int].peer_id, peers[a as int].peer_id);
                    assert forall|k: int| 0 <= k < a + 1 implies candidate_order(
                        #[trigger] peers[k],
                        peers[a as int],
                        by_slot,
                    ) <= 0 by {
                        if k < a {
                            lemma_candidate_order_trans(
                                peers[k],
                                peers[best as int],
                                peers[a as int],
                                by_slot,
                            );
                        }
                    }
                }
                best = a;
            }
            a = a + 1;
        }
        let r = self.peer_table[idx[best]].head_checkpoint;
        assert(r == peers[best as int].head_checkpoint);
        r
    }


    /// The checkpoint most commonly reported as head by the connected peers.
    pub fn common_highest_checkpoint(&self) -> (r: Option<Checkpoint>)
        ensures
            common_checkpoint_result(connected_peers(self.table()), true, r),
    {
        self.common_checkpoint_by(true)
    }

    /// The checkpoint most commonly reported as finalized by the connected peers.
    pub fn common_finalized_checkpoint(&self) -> (r: Option<Checkpoint>)
        ensures
            common_checkpoint_result(connected_peers(self.table()), false, r),
    {
        self.common_checkpoint_by(false)
    }

    fn common_checkpoint_by(&self, use_head: bool) -> (r: Option<Checkpoint>)
        ensures
            common_checkpoint_result(connected_peers(self.table()), use_head, r),
    {
        let connected = self.connected_indices(false);
        self.common_checkpoint_from_peers(&connected, use_head)
    }

    /// The head checkpoint to sync towards: the common head if there is one; otherwise, with
    /// at most two head candidates, the highest one (by slot when the peers agree on a
    /// finalized checkpoint, by score when they do not); otherwise the highest candidate of
    /// the slot cluster around the median head slot.
    pub fn preferred_highest_checkpoint(&self) -> (r: Option<Checkpoint>)
        ensures
            preferred_result(self.table(), r),
    {
        let connected = self.connected_indices(false);
        if let Some(c) = self.common_checkpoint_from_peers(&connected, true) {
            return Some(c);
        }
        let candidates = self.connected_indices(true);
        if candidates.len() == 0 {
            return None;
        }
        let has_common_finalized = self.common_checkpoint_from_peers(&connected, false).is_some();
        if candidates.len() <= 2 {
            return self.highest_checkpoint(&candidates, has_common_finalized);
        }
        self.clustered_highest_checkpoint(&candidates)
    }

    /// The highest head checkpoint among the peers at `idx` whose head slot lies in the
    /// cluster around their median head slot.
    fn clustered_highest_checkpoint(&self, idx: &Vec<usize>) -> (r: Option<Checkpoint>)
        requires
            idx@.len() >= 1,
            forall|k: int| 0 <= k < idx@.len() ==> (#[trigger] idx@[k]) < self.table().len(),
        ensures
            highest_result(slot_cluster(pick(self.table(), idx@)), true, r),
    {
        broadcast use vstd::seq_lib::group_to_multiset_ensures;

        let ghost peers = pick(self.table(), idx@);
        // head slots, in candidate order
        let mut slots: Vec<u128> = Vec::new();
        let mut k: usize = 0;
        while k < idx.len()
            invariant
                k <= idx.len(),
                peers == pick(self.table(), idx@),
                forall|j: int| 0 <= j < idx@.len() ==> (#[trigger] idx@[j]) < self.table().len(),
                slots@ == candidate_slots(peers).take(k as int),
            decreases idx.len() - k,
        {
            let p = &self.peer_table[idx[k]];
            let slot: u64 = match p.head_checkpoint {
                Some(c) => c.slot,
                None => 0,
            };
            assert(slot == head_slot(peers[k as int]));
            slots.push(slot as u128);
            assert(candidate_slots(peers).take(k + 1) =~= candidate_slots(peers).take(k as int).push(
                slot as u128,
            ));
            k = k + 1;
        }
        assert(candidate_slots(peers).take(k as int) =~= candidate_slots(peers));
        let sorted_slots = crate::sorting::sort_u128(&slots);
        assert forall|j: int| 0 <= j < sorted_slots@.len() implies #[trigger] sorted_slots@[j]
            <= u64::MAX by {
            assert(sorted_slots@.to_multiset().count(sorted_slots@[j]) > 0);
            assert(slots@.contains(sorted_slots@[j]));
        }
        let median = median_slot_x2(&sorted_slots);
        assert(median == cluster_median_x2(peers));
        // deviations from the median, in candidate order
        let mut deviations: Vec<u128> = Vec::new();
        let mut k: usize = 0;
        while k < idx.len()
            invariant
                k <= idx.len(),
                peers == pick(self.table(), idx@),
                forall|j: int| 0 <= j < idx@.len() ==> (#[trigger] idx@[j]) < self.table().len(),
                median == cluster_median_x2(peers),
                median <= 2 * (u64::MAX as int),
                deviations@ == cluster_deviations(peers).take(k as int),
                forall|j: int| 0 <= j < deviations@.len() ==> #[trigger] deviations@[j] <= 2 * (
                u64::MAX as int),
            decreases idx.len() - k,
        {
            let p = &self.peer_table[idx[k]];
            let slot: u64 = match p.head_checkpoint {
                Some(c) => c.slot,
                None => 0,
            };
            assert(slot == head_slot(peers[k as int]));
            let d = slot_deviation_x2(slot, median);
            deviations.push(d);
            assert(cluster_deviations(peers).take(k + 1) =~= cluster_deviations(peers).take(
                k as int,
            ).push(d));
            k = k + 1;
        }
        assert(cluster_deviations(peers).take(k as int) =~= cluster_deviations(peers));
        let sorted_deviations = crate::sorting::sort_u128(&deviations);
        assert forall|j: int| 0 <= j < sorted_deviations@.len() implies #[trigger] sorted_deviations@[j]
            <= 2 * (u64::MAX as int) by {
            assert(sorted_deviations@.to_multiset().count(sorted_deviations@[j]) > 0);
            assert(deviations@.contains(sorted_deviations@[j]));
        }
        let median_deviation = median_u128(&sorted_deviations);
        assert(median_deviation == cluster_median_deviation_x2(peers));
        // the members of the cluster
        let ghost member = |p: CachedPeerView|
            cluster_member(
                head_slot(p),
                cluster_median_x2(peers),
                cluster_median_deviation_x2(peers),
            );
        let mut cluster: Vec<usize> = Vec::new();
        let mut k: usize = 0;
        while k < idx.len()
            invariant
                k <= idx.len(),
                peers == pick(self.table(), idx@),
                forall|j: int| 0 <= j < idx@.len() ==> (#[trigger] idx@[j]) < self.table().len(),
                median == cluster_median_x2(peers),
                median <= 2 * (u64::MAX as int),
                median_deviation == cluster_median_deviation_x2(peers),
                median_deviation <= 2 * (u64::MAX as int),
                member == (|p: CachedPeerView|
                    cluster_member(
                        head_slot(p),
                        cluster_median_x2(peers),
                        cluster_median_deviation_x2(peers),
                    )),
                forall|j: int| 0 <= j < cluster@.len() ==> (#[trigger] cluster@[j]) < self.table().len(),
                pick(self.table(), cluster@) == peers.take(k as int).filter(member),
            decreases idx.len() - k,
        {
            proof {
                lemma_filter_take_step(peers, k as int, member);
            }
            let i = idx[k];
            let p = &self.peer_table[i];
            let slot: u64 = match p.head_checkpoint {
                Some(c) => c.slot,
                None => 0,
            };
            assert(slot == head_slot(peers[k as int]));
            if slot_is_cluster_member(slot, median, median_deviation) {
                let ghost before = cluster@;
                cluster.push(i);
                assert(pick(self.table(), cluster@) =~= pick(self.table(), before).push(
                    peers[k as int],
                ));
            }
            k = k + 1;
        }
        assert(peers.take(k as int) =~= peers);
        self.highest_checkpoint(&cluster, true)
    }

    /// Changes the score of the entry for `peer_id` (if any) to `new_score(old score)`.
    fn adjust_score(&mut self, peer_id: &PeerId, increase: bool)
        requires
            old(self).wf(),
        ensures
            final(self).wf(),
            final(self).table() == with_score(
                old(self).table(),
                peer_id@,
                if increase {
                    |s: u8| raised_score(s)
                } else {
                    |s: u8| lowered_score(s)
                },
            ),
            final(self).head_checkpoint == old(self).head_checkpoint,
            final(self).finalized_checkpoint == old(self).finalized_checkpoint,
            final(self).status_updates == old(self).status_updates,
    {
        let ghost old_table = self.table();
        if let Some(i) = self.find_peer(peer_id) {
            let old_peer = &self.peer_table[i];
            let score = if increase {
                old_peer.peer_score.saturating_add(10)
            } else {
                old_peer.peer_score.saturating_sub(20)
            };
            let updated = CachedPeer {
                peer_id: old_peer.peer_id.duplicate(),
                last_seen_p2p_address: copy_opt_bytes(&old_peer.last_seen_p2p_address),
                state: old_peer.state,
                direction: old_peer.direction,
                head_checkpoint: old_peer.head_checkpoint,
                finalized_checkpoint: old_peer.finalized_checkpoint,
                last_status_update: old_peer.last_status_update,
                peer_score: score,
            };
            self.peer_table.set(i, updated);
            proof {
                assert(peer_index(old_table, peer_id@) == i as int);
                assert(self.table() =~= with_score(
                    old_table,
                    peer_id@,
                    if increase {
                        |s: u8| raised_score(s)
                    } else {
                        |s: u8| lowered_score(s)
                    },
                ));
            }
        }
    }

    /// A successful response raises the peer's score by 10, up to 255.
    pub fn successful_response_from_peer(&mut self, peer_id: PeerId)
        requires
            old(self).wf(),
        ensures
            final(self).wf(),
            final(self).table() == with_score(
                old(self).table(),
                peer_id@,
                |s: u8| raised_score(s),
            ),
            final(self).head_checkpoint == old(self).head_checkpoint,
            final(self).finalized_checkpoint == old(self).finalized_checkpoint,
            final(self).status_updates == old(self).status_updates,
    {
        self.adjust_score(&peer_id, true);
    }

    /// A failed response lowers the peer's score by 20, down to 0.
    pub fn failed_response_from_peer(&mut self, peer_id: PeerId)
        requires
            old(self).wf(),
        ensures
            final(self).wf(),
            final(self).table() == with_score(
                old(self).table(),
                peer_id@,
                |s: u8| lowered_score(s),
            ),
            final(self).head_checkpoint == old(self).head_checkpoint,
            final(self).finalized_checkpoint == old(self).finalized_checkpoint,
            final(self).status_updates == old(self).status_updates,
    {
        self.adjust_score(&peer_id, false);
    }
}

// ---------------------------------------------------------------------------
// What the preferred head checkpoint is
// ---------------------------------------------------------------------------

/// Every value of a sequence occurs in its ascending sort, and the other way round.
proof fn lemma_sorted_same_values(s: Seq<u128>, v: u128)
    ensures
        s.contains(v) <==> crate::sorting::sorted_u128(s).contains(v),
        crate::sorting::sorted_u128(s).len() == s.len(),
        vstd::relations::sorted_by(crate::sorting::sorted_u128(s), crate::sorting::u128_leq()),
{
    crate::sorting::lemma_u128_leq_total();
    s.lemma_sort_by_ensures(crate::sorting::u128_leq());
    let t = crate::sorting::sorted_u128(s);
    s.to_multiset_ensures();
    t.to_multiset_ensures();
    assert(s.to_multiset().count(v) == t.to_multiset().count(v));
    assert(s.contains(v) <==> s.to_multiset().count(v) > 0);
    assert(t.contains(v) <==> t.to_multiset().count(v) > 0);
}

/// The slot cluster of a non-empty candidate list is never empty: a candidate at the
/// median slot lies closest to the median, and so within the cluster.
proof fn lemma_slot_cluster_nonempty(cands: Seq<CachedPeerView>)
    requires
        cands.len() >= 1,
    ensures
        slot_cluster(cands).len() > 0,
{
    let slots = candidate_slots(cands);
    let sorted = crate::sorting::sorted_u128(slots);
    let n = slots.len();
    let mid = n / 2;
    let mx2 = cluster_median_x2(cands);
    lemma_sorted_same_values(slots, 0);
    assert(sorted.len() == n);
    // Every sorted slot is the slot of some candidate, so below 2^64.
    assert forall|t: int| 0 <= t < n implies #[trigger] sorted[t] < 0x1_0000_0000_0000_0000 by {
        lemma_sorted_same_values(slots, sorted[t]);
        assert(sorted.contains(sorted[t]));
        let k = choose|k: int| 0 <= k < slots.len() && slots[k] == sorted[t];
        assert(slots[k] == head_slot(cands[k]) as u128);
    }
    assert(0 <= mx2 < 0x2_0000_0000_0000_0000);
    // The slot just below or at the middle, and a candidate that has it.
    let low_index: int = if n % 2 == 0 {
        mid - 1
    } else {
        mid as int
    };
    let a = sorted[low_index];
    lemma_sorted_same_values(slots, a);
    assert(sorted.contains(a));
    let k0 = choose|k: int| 0 <= k < slots.len() && slots[k] == a;
    assert(head_slot(cands[k0]) as u128 == a);
    let d0 = deviation_x2(head_slot(cands[k0]), mx2);
    // No candidate lies closer to the median than that one.
    assert forall|j: int| 0 <= j < n implies #[trigger] deviation_x2(head_slot(cands[j]), mx2)
        >= d0 by {
        if n % 2 == 0 {
            let v = slots[j];
            lemma_sorted_same_values(slots, v);
            assert(slots.contains(v));
            let t = choose|t: int| 0 <= t < sorted.len() && sorted[t] == v;
            let b = sorted[mid as int];
            assert(crate::sorting::u128_leq()(sorted[mid - 1], sorted[mid as int]));
            if t <= mid - 1 {
                if t < mid - 1 {
                    assert(crate::sorting::u128_leq()(sorted[t], sorted[mid - 1]));
                }
            } else {
                if t > mid {
                    assert(crate::sorting::u128_leq()(sorted[mid as int], sorted[t]));
                }
            }
        }
    }
    // Hence the median deviation is at least that one's.
    let devs = cluster_deviations(cands);
    let sd = crate::sorting::sorted_u128(devs);
    let med = cluster_median_deviation_x2(cands);
    lemma_sorted_same_values(devs, 0);
    assert forall|i: int| 0 <= i < sd.len() implies #[trigger] sd[i] >= d0 by {
        lemma_sorted_same_values(devs, sd[i]);
        assert(sd.contains(sd[i]));
        let j = choose|j: int| 0 <= j < devs.len() && devs[j] == sd[i];
        let dj = deviation_x2(head_slot(cands[j]), mx2);
        assert(0 <= dj < 0x4_0000_0000_0000_0000);
        assert(devs[j] == dj as u128);
        assert(dj >= d0);
    }
    let m = sd.len() / 2;
    if sd.len() % 2 == 0 {
        assert(sd[m - 1] >= d0 && sd[m as int] >= d0);
    } else {
        assert(sd[m as int] >= d0);
    }
    assert(med >= d0);
    assert(d0 >= 0);
    if n % 2 == 1 {
        assert(d0 == 0);
    }
    assert(cluster_member(head_slot(cands[k0]), mx2, med)) by {
        if med != 0 {
            assert(d0 * MODIFIED_Z_SCORE_NUMERATOR <= med * MODIFIED_Z_SCORE_OUTLIER_THRESHOLD)
                by (nonlinear_arith)
                requires
                    0 <= d0 <= med,
            ;
        } else {
            assert(d0 == 0);
        }
    }
    let pred = |p: CachedPeerView|
        cluster_member(
            head_slot(p),
            cluster_median_x2(cands),
            cluster_median_deviation_x2(cands),
        );
    cands.filter_lemma(pred);
    assert(slot_cluster(cands).contains(cands[k0]));
}

/// Upserting a peer into a table of unique ids keeps the ids unique and leaves exactly one
/// entry for the peer, whose connection state and direction are the ones given, whatever
/// they were before (a known peer upserted as disconnected is disconnected); every other
/// entry is unchanged, and the table grows by one entry exactly when the peer was new.
pub proof fn upsert_sets_state_and_direction(
    table: Seq<CachedPeerView>,
    id: Seq<u8>,
    address: Option<Seq<u8>>,
    state: ConnectionState,
    direction: Direction,
)
    requires
        ids_unique(table),
    ensures
        ({
            let t = upserted(table, id, address, state, direction);
            &&& ids_unique(t)
            &&& exists|i: int| 0 <= i < t.len() && #[trigger] t[i].peer_id == id
            &&& forall|i: int|
                0 <= i < t.len() && #[trigger] t[i].peer_id == id ==> t[i].state == state
                    && t[i].direction == direction
            &&& forall|i: int|
                0 <= i < table.len() && #[trigger] table[i].peer_id != id ==> t[i] == table[i]
            &&& t.len() == table.len() + if (exists|i: int|
                0 <= i < table.len() && #[trigger] table[i].peer_id == id) {
                0int
            } else {
                1int
            }
        }),
{
    let t = upserted(table, id, address, state, direction);
    if has_peer(table, id) {
        let k = peer_index(table, id);
        assert(t[k].peer_id == id);
        assert forall|i: int| 0 <= i < t.len() && #[trigger] t[i].peer_id == id implies i == k by {
            if i != k {
                assert(table[i].peer_id == table[k].peer_id);
            }
        }
    } else {
        let n = table.len() as int;
        assert(t[n].peer_id == id);
        assert forall|i: int| 0 <= i < t.len() && #[trigger] t[i].peer_id == id implies i == n by {
            if i < n {
                assert(table[i].peer_id == id);
            }
        }
    }
}

/// The connected peers of a table are its entries in state `Connected`, in table order:
/// each such entry is among them and each of them is such an entry, and there are no
/// more of them than entries.
pub proof fn connected_peers_are_the_connected_entries(table: Seq<CachedPeerView>)
    ensures
        connected_peers(table).len() <= table.len(),
        forall|i: int|
            0 <= i < table.len() && (#[trigger] table[i]).state is Connected ==> connected_peers(
                table,
            ).contains(table[i]),
        forall|k: int|
            0 <= k < connected_peers(table).len() ==> (#[trigger] connected_peers(table)[k]).state
                is Connected && table.contains(connected_peers(table)[k]),
{
    let pred = |p: CachedPeerView| is_connected(p);
    table.filter_lemma(pred);
    assert forall|i: int| 0 <= i < table.len() && (#[trigger] table[i]).state is Connected implies connected_peers(
        table,
    ).contains(table[i]) by {
        assert(pred(table[i]));
    }
    assert forall|k: int| 0 <= k < connected_peers(table).len() implies (#[trigger] connected_peers(
        table,
    )[k]).state is Connected && table.contains(connected_peers(table)[k]) by {
        assert(pred(connected_peers(table)[k]));
        table.lemma_filter_contains_rev(pred, connected_peers(table)[k]);
    }
}

/// A common checkpoint is reported by at least two peers, or else by every peer that
/// reports one; no checkpoint is reported by more peers, and none reported as often has
/// a higher slot.
pub proof fn common_checkpoint_is_shared_or_undisputed(
    peers: Seq<CachedPeerView>,
    use_head: bool,
    c: Checkpoint,
)
    requires
        common_checkpoint_result(peers, use_head, Some(c)),
    ensures
        tally(peers, use_head, c) >= 2 || forall|i: int|
            0 <= i < peers.len() && (#[trigger] reported(peers[i], use_head)) is Some ==> reported(
                peers[i],
                use_head,
            ) == Some(c),
        forall|d: Checkpoint|
            #[trigger] tally(peers, use_head, d) < tally(peers, use_head, c) || (tally(
                peers,
                use_head,
                d,
            ) == tally(peers, use_head, c) && d.slot <= c.slot),
{
    lemma_tally_positive(peers, use_head, c);
    if tally(peers, use_head, c) < 2 {
        let k = choose|k: int| 0 <= k < peers.len() && reported(#[trigger] peers[k], use_head) == Some(c);
        assert forall|i: int|
            0 <= i < peers.len() && (#[trigger] reported(peers[i], use_head)) is Some implies reported(
                peers[i],
                use_head,
            ) == Some(c) by {
            if reported(peers[i], use_head) != Some(c) {
                assert(reported(peers[k], use_head) is Some);
                assert forall|d: Checkpoint| #[trigger] tally(peers, use_head, d) <= 1 by {
                    assert(tally(peers, use_head, d) <= tally(peers, use_head, c));
                }
                assert(no_common_checkpoint(peers, use_head));
            }
        }
    }
}

/// When the connected peers have a common head checkpoint, the preferred head checkpoint
/// is that checkpoint.
pub proof fn preferred_is_common_when_one_exists(
    table: Seq<CachedPeerView>,
    common: Option<Checkpoint>,
    preferred: Option<Checkpoint>,
)
    requires
        common_checkpoint_result(connected_peers(table), true, common),
        preferred_result(table, preferred),
        common is Some,
    ensures
        preferred == common,
{
    let connected = connected_peers(table);
    lemma_chosen_checkpoint_unique(connected, true, common->Some_0, preferred->Some_0);
}

/// The preferred head checkpoint is named exactly when some connected peer reports a
/// head, and it is the head of such a peer.
pub proof fn preferred_checkpoint_is_a_connected_head(table: Seq<CachedPeerView>, r: Option<Checkpoint>)
    requires
        preferred_result(table, r),
    ensures
        r is Some <==> exists|i: int|
            0 <= i < table.len() && is_connected(table[i]) && (#[trigger] table[i].head_checkpoint)
                is Some,
        r matches Some(c) ==> exists|i: int|
            0 <= i < table.len() && is_connected(table[i]) && #[trigger] table[i].head_checkpoint
                == Some(c),
{
    let connected = connected_peers(table);
    let cands = head_candidates(table);
    let conn_pred = |p: CachedPeerView| is_connected(p);
    let cand_pred = |p: CachedPeerView| is_connected(p) && p.head_checkpoint is Some;
    table.filter_lemma(conn_pred);
    table.filter_lemma(cand_pred);
    // A candidate is a connected peer of the table that reports a head.
    assert forall|k: int| 0 <= k < cands.len() implies exists|i: int|
        0 <= i < table.len() && is_connected(table[i]) && #[trigger] table[i].head_checkpoint
            == (#[trigger] cands[k]).head_checkpoint && table[i].head_checkpoint is Some by {
        assert(cand_pred(cands[k]));
        table.lemma_filter_contains_rev(cand_pred, cands[k]);
        let i = choose|i: int| 0 <= i < table.len() && table[i] == cands[k];
        assert(table[i].head_checkpoint == cands[k].head_checkpoint);
    }
    // Where some connected peer reports a head, there is a candidate.
    if exists|i: int|
        0 <= i < table.len() && is_connected(table[i]) && (#[trigger] table[i].head_checkpoint)
            is Some {
        let i = choose|i: int|
            0 <= i < table.len() && is_connected(table[i]) && (#[trigger] table[i].head_checkpoint)
                is Some;
        assert(cand_pred(table[i]));
        assert(cands.contains(table[i]));
        assert(cands.len() > 0);
    }
    if !no_common_checkpoint(connected, true) {
        let c = r->Some_0;
        assert(is_common_checkpoint(connected, true, c));
        lemma_tally_positive(connected, true, c);
        let k = choose|k: int| 0 <= k < connected.len() && reported(#[trigger] connected[k], true)
            == Some(c);
        assert(conn_pred(connected[k]));
        table.lemma_filter_contains_rev(conn_pred, connected[k]);
        let i = choose|i: int| 0 <= i < table.len() && table[i] == connected[k];
        assert(table[i].head_checkpoint == Some(c));
    } else if cands.len() == 0 {
    } else if cands.len() <= 2 {
        let k = choose|k: int|
            0 <= k < cands.len() && r == (#[trigger] cands[k]).head_checkpoint && forall|j: int|
                0 <= j < cands.len() ==> candidate_order(
                    #[trigger] cands[j],
                    cands[k],
                    !no_common_checkpoint(connected, false),
                ) <= 0;
        assert(cand_pred(cands[k]));
    } else {
        let cluster = slot_cluster(cands);
        lemma_slot_cluster_nonempty(cands);
        let k = choose|k: int|
            0 <= k < cluster.len() && r == (#[trigger] cluster[k]).head_checkpoint && forall|j: int|
                0 <= j < cluster.len() ==> candidate_order(#[trigger] cluster[j], cluster[k], true)
                    <= 0;
        let member = |p: CachedPeerView|
            cluster_member(
                head_slot(p),
                cluster_median_x2(cands),
                cluster_median_deviation_x2(cands),
            );
        assert(cluster.contains(cluster[k]));
        cands.lemma_filter_contains_rev(member, cluster[k]);
        let j = choose|j: int| 0 <= j < cands.len() && cands[j] == cluster[k];
        assert(cand_pred(cands[j]));
    }
}

} // verus!
