use vstd::prelude::*;

use crate::gossip_config::{extend_bytes, le_bytes, push_le_u64};
use crate::rlp::{
    lemma_short_rlp_roundtrip, rlp_bytes_of, rlp_decode_bytes, rlp_encode_bytes,
    short_rlp_encoding,
};

verus! {

/// The ENR key of the fork id.
pub const ENR_ETH2_KEY: &'static str = "eth2";

/// The epoch that never comes.
pub const FAR_FUTURE_EPOCH: u64 = 0xffff_ffff_ffff_ffff;

/// The fork id that an ENR announces: the current fork digest, and the version and
/// epoch of the next fork.
#[derive(Clone, Copy, Debug, Default, PartialEq, Eq)]
pub struct EnrForkId {
    pub fork_digest: [u8; 4],
    pub next_fork_version: [u8; 4],
    pub next_fork_epoch: u64,
}

/// A scheduled fork: the epoch it starts at and the version it brings.
#[derive(Clone, Copy, Debug, PartialEq, Eq)]
pub struct Fork {
    pub epoch: u64,
    pub current_version: [u8; 4],
}

/// The SSZ bytes of a fork id: the digest, the next version, then the next epoch as
/// 8 little-endian bytes.
pub open spec fn fork_id_ssz(id: EnrForkId) -> Seq<u8> {
    id.fork_digest@ + id.next_fork_version@ + le_bytes(id.next_fork_epoch as nat, 8)
}

/// The number that little-endian `bytes` spell.
pub open spec fn le_value(bytes: Seq<u8>) -> nat
    decreases bytes.len(),
{
    if bytes.len() == 0 {
        0
    } else {
        bytes[0] as nat + 256 * le_value(bytes.drop_first())
    }
}

/// The fork id that SSZ `bytes` hold: exactly 16 bytes, split as `fork_id_ssz` lays them out.
pub open spec fn fork_id_from_ssz(bytes: Seq<u8>) -> Option<EnrForkId> {
    if bytes.len() != 16 {
        None
    } else {
        Some(
            EnrForkId {
                fork_digest: [bytes[0], bytes[1], bytes[2], bytes[3]],
                next_fork_version: [bytes[4], bytes[5], bytes[6], bytes[7]],
                next_fork_epoch: le_value(bytes.subrange(8, 16)) as u64,
            },
        )
    }
}

/// The index of the first fork of `forks` that starts after `epoch`, or the length
/// of `forks` where none does.
pub open spec fn first_fork_after(forks: Seq<Fork>, epoch: u64) -> int
    decreases forks.len(),
{
    if forks.len() == 0 || forks[0].epoch > epoch {
        0
    } else {
        1 + first_fork_after(forks.drop_first(), epoch)
    }
}

/// The earliest of `epochs` after `epoch`, if any.
pub open spec fn earliest_after(epochs: Seq<u64>, epoch: u64) -> Option<u64>
    decreases epochs.len(),
{
    if epochs.len() == 0 {
        None
    } else {
        let rest = earliest_after(epochs.drop_first(), epoch);
        if epochs[0] > epoch {
            match rest {
                Some(e) => if e < epochs[0] {
                    Some(e)
                } else {
                    Some(epochs[0])
                },
                None => Some(epochs[0]),
            }
        } else {
            rest
        }
    }
}

/// The next fork's version and epoch: the next scheduled fork, unless a blob schedule
/// change comes strictly before it, in which case the current version with that epoch;
/// the current version at the far future epoch when neither comes.
pub open spec fn spec_next_fork(
    forks: Seq<Fork>,
    blob_epochs: Seq<u64>,
    current_version: [u8; 4],
    epoch: u64,
) -> ([u8; 4], u64) {
    let i = first_fork_after(forks, epoch);
    let bpo = earliest_after(blob_epochs, epoch);
    if i < forks.len() {
        match bpo {
            Some(b) => if forks[i].epoch <= b {
                (forks[i].current_version, forks[i].epoch)
            } else {
                (current_version, b)
            },
            None => (forks[i].current_version, forks[i].epoch),
        }
    } else {
        match bpo {
            Some(b) => (current_version, b),
            None => (current_version, FAR_FUTURE_EPOCH),
        }
    }
}

proof fn lemma_first_fork_after(forks: Seq<Fork>, epoch: u64)
    ensures
        0 <= first_fork_after(forks, epoch) <= forks.len(),
        first_fork_after(forks, epoch) < forks.len() ==> forks[first_fork_after(forks, epoch)].epoch
            > epoch,
        forall|j: int| 0 <= j < first_fork_after(forks, epoch) ==> #[trigger] forks[j].epoch <= epoch,
    decreases forks.len(),
{
    if forks.len() > 0 && forks[0].epoch <= epoch {
        lemma_first_fork_after(forks.drop_first(), epoch);
        assert forall|j: int| 0 <= j < first_fork_after(forks, epoch) implies #[trigger] forks[j].epoch
            <= epoch by {
            if j > 0 {
                assert(forks[j] == forks.drop_first()[j - 1]);
            }
        }
    }
}

/// The index of the first fork of `forks` that starts after `epoch`.
fn find_fork_after(forks: &Vec<Fork>, epoch: u64) -> (r: usize)
    ensures
        r == first_fork_after(forks@, epoch),
{
    let mut i: usize = 0;
    assert(forks@.skip(0) =~= forks@);
    while i < forks.len()
        invariant
            i <= forks@.len(),
            first_fork_after(forks@, epoch) == i + first_fork_after(forks@.skip(i as int), epoch),
        decreases forks@.len() - i,
    {
        if forks[i].epoch > epoch {
            return i;
        }
        assert(forks@.skip(i as int).drop_first() =~= forks@.skip(i as int + 1));
        i = i + 1;
    }
    i
}

/// The earliest of `epochs` after `epoch`.
fn find_earliest_after(epochs: &Vec<u64>, epoch: u64) -> (r: Option<u64>)
    ensures
        r == earliest_after(epochs@, epoch),
{
    let mut best: Option<u64> = None;
    let mut i: usize = epochs.len();
    while i > 0
        invariant
            i <= epochs@.len(),
            best == earliest_after(epochs@.skip(i as int), epoch),
        decreases i,
    {
        i = i - 1;
        assert(epochs@.skip(i as int).drop_first() =~= epochs@.skip(i as int + 1));
        let e = epochs[i];
        if e > epoch {
            best = match best {
                Some(b) => if b < e {
                    Some(b)
                } else {
                    Some(e)
                },
                None => Some(e),
            };
        }
    }
    assert(epochs@.skip(0) =~= epochs@);
    best
}

/// The next fork's version and epoch, as `spec_next_fork` describes.
pub fn next_fork(
    forks: &Vec<Fork>,
    blob_epochs: &Vec<u64>,
    current_version: [u8; 4],
    epoch: u64,
) -> (r: ([u8; 4], u64))
    ensures
        r == spec_next_fork(forks@, blob_epochs@, current_version, epoch),
{
    let i = find_fork_after(forks, epoch);
    let bpo = find_earliest_after(blob_epochs, epoch);
    proof {
        lemma_first_fork_after(forks@, epoch);
    }
    if i < forks.len() {
        match bpo {
            Some(b) => if forks[i].epoch <= b {
                (forks[i].current_version, forks[i].epoch)
            } else {
                (current_version, b)
            },
            None => (forks[i].current_version, forks[i].epoch),
        }
    } else {
        match bpo {
            Some(b) => (current_version, b),
            None => (current_version, FAR_FUTURE_EPOCH),
        }
    }
}

impl EnrForkId {
    /// The fork id at `epoch`, from the fork digest and version of that epoch, the fork
    /// schedule and the epochs of the blob schedule.
    pub fn current(
        fork_digest: [u8; 4],
        current_version: [u8; 4],
        forks: &Vec<Fork>,
        blob_epochs: &Vec<u64>,
        epoch: u64,
    ) -> (r: EnrForkId)
        ensures
            r.fork_digest == fork_digest,
            (r.next_fork_version, r.next_fork_epoch) == spec_next_fork(
                forks@,
                blob_epochs@,
                current_version,
                epoch,
            ),
    {
        let (next_fork_version, next_fork_epoch) = next_fork(
            forks,
            blob_epochs,
            current_version,
            epoch,
        );
        EnrForkId { fork_digest, next_fork_version, next_fork_epoch }
    }

    /// The SSZ bytes of this fork id.
    pub fn as_ssz_bytes(&self) -> (r: Vec<u8>)
        ensures
            r@ == fork_id_ssz(*self),
    {
        let mut out: Vec<u8> = Vec::new();
        extend_bytes(&mut out, &self.fork_digest);
        extend_bytes(&mut out, &self.next_fork_version);
        push_le_u64(&mut out, self.next_fork_epoch);
        out
    }

    /// The fork id that SSZ `bytes` hold, if they are exactly 16 bytes.
    pub fn from_ssz_bytes(bytes: &[u8]) -> (r: Option<EnrForkId>)
        ensures
            r == fork_id_from_ssz(bytes@),
    {
        if bytes.len() != 16 {
            return None;
        }
        let mut epoch: u64 = 0;
        let mut i: usize = 16;
        while i > 8
            invariant
                8 <= i <= 16,
                bytes@.len() == 16,
                epoch == le_value(bytes@.subrange(i as int, 16)),
                le_value(bytes@.subrange(i as int, 16)) < pow256((16 - i) as nat),
            decreases i,
        {
            i = i - 1;
            proof {
                let s = bytes@.subrange(i as int, 16);
                assert(s.drop_first() =~= bytes@.subrange(i as int + 1, 16));
                assert(pow256((16 - i) as nat) == 256 * pow256((16 - i - 1) as nat));
                assert(le_value(s) == bytes@[i as int] as nat + 256 * epoch);
                assert(pow256(8) == 0x1_0000_0000_0000_0000) by {
                    reveal_with_fuel(pow256, 9);
                }
                lemma_pow256_monotone((16 - i) as nat, 8);
                assert(le_value(s) < pow256((16 - i) as nat)) by (nonlinear_arith)
                    requires
                        le_value(s) == bytes@[i as int] as nat + 256 * epoch,
                        epoch < pow256((16 - i - 1) as nat),
                        pow256((16 - i) as nat) == 256 * pow256((16 - i - 1) as nat),
                        bytes@[i as int] < 256,
                ;
            }
            epoch = bytes[i] as u64 + 256 * epoch;
        }
        Some(
            EnrForkId {
                fork_digest: [bytes[0], bytes[1], bytes[2], bytes[3]],
                next_fork_version: [bytes[4], bytes[5], bytes[6], bytes[7]],
                next_fork_epoch: epoch,
            },
        )
    }

    /// The ENR value of this fork id: its SSZ bytes as an RLP byte string.
    pub fn encode(&self) -> (r: Vec<u8>)
        ensures
            r@ == short_rlp_encoding(fork_id_ssz(*self)),
    {
        let ssz = self.as_ssz_bytes();
        proof {
            lemma_le_bytes_len(self.next_fork_epoch as nat, 8);
        }
        rlp_encode_bytes(ssz.as_slice())
    }

    /// The fork id in the ENR value `buf`: an RLP byte string holding its SSZ bytes.
    pub fn decode(buf: &[u8]) -> (r: Option<EnrForkId>)
        ensures
            r == match rlp_bytes_of(buf@) {
                Some(bytes) => fork_id_from_ssz(bytes),
                None => None,
            },
    {
        match rlp_decode_bytes(buf) {
            Some(bytes) => EnrForkId::from_ssz_bytes(bytes.as_slice()),
            None => None,
        }
    }
}

/// `256` to the power `k`.
pub open spec fn pow256(k: nat) -> nat
    decreases k,
{
    if k == 0 {
        1
    } else {
        256 * pow256((k - 1) as nat)
    }
}

proof fn lemma_pow256_monotone(a: nat, b: nat)
    requires
        a <= b,
    ensures
        pow256(a) <= pow256(b),
    decreases b,
{
    if a < b {
        lemma_pow256_monotone(a, (b - 1) as nat);
    }
}

proof fn lemma_le_bytes_len(n: nat, k: nat)
    ensures
        le_bytes(n, k).len() == k,
    decreases k,
{
    if k > 0 {
        lemma_le_bytes_len(n / 256, (k - 1) as nat);
    }
}

/// Reading little-endian bytes back gives the number they were made from.
pub(crate) proof fn lemma_le_roundtrip(n: nat, k: nat)
    requires
        n < pow256(k),
    ensures
        le_value(le_bytes(n, k)) == n,
        le_bytes(n, k).len() == k,
    decreases k,
{
    if k > 0 {
        assert(n / 256 < pow256((k - 1) as nat));
        lemma_le_roundtrip(n / 256, (k - 1) as nat);
        let b = le_bytes(n, k);
        assert(b.drop_first() =~= le_bytes(n / 256, (k - 1) as nat));
    }
}

/// Decoding the ENR value of a fork id gives the fork id back.
pub proof fn enr_fork_id_roundtrip(id: EnrForkId)
    ensures
        match rlp_bytes_of(short_rlp_encoding(fork_id_ssz(id))) {
            Some(bytes) => fork_id_from_ssz(bytes) == Some(id),
            None => false,
        },
{
    let ssz = fork_id_ssz(id);
    assert(pow256(8) == 0x1_0000_0000_0000_0000) by {
        reveal_with_fuel(pow256, 9);
    }
    lemma_le_roundtrip(id.next_fork_epoch as nat, 8);
    assert(ssz.len() == 16);
    lemma_short_rlp_roundtrip(ssz, Seq::empty());
    assert(short_rlp_encoding(ssz) + Seq::<u8>::empty() =~= short_rlp_encoding(ssz));
    assert(ssz.subrange(8, 16) =~= le_bytes(id.next_fork_epoch as nat, 8));
    let back = fork_id_from_ssz(ssz).unwrap();
    assert(back.fork_digest =~= id.fork_digest);
    assert(back.next_fork_version =~= id.next_fork_version);
}

/// The earliest of `epochs` after `epoch` is one of them, after `epoch`, and no later than
/// any of them after `epoch`; there is none exactly when none of them is after `epoch`.
proof fn lemma_earliest_after(epochs: Seq<u64>, epoch: u64)
    ensures
        earliest_after(epochs, epoch) is None <==> forall|k: int|
            0 <= k < epochs.len() ==> #[trigger] epochs[k] <= epoch,
        earliest_after(epochs, epoch) matches Some(b) ==> {
            &&& b > epoch
            &&& epochs.contains(b)
            &&& forall|k: int| 0 <= k < epochs.len() && #[trigger] epochs[k] > epoch ==> b <= epochs[k]
        },
    decreases epochs.len(),
{
    if epochs.len() > 0 {
        let rest = epochs.drop_first();
        lemma_earliest_after(rest, epoch);
        assert forall|k: int| 0 < k < epochs.len() implies #[trigger] epochs[k] == rest[k - 1] by {}
        if let Some(b) = earliest_after(rest, epoch) {
            let w = choose|w: int| 0 <= w < rest.len() && rest[w] == b;
            assert(epochs[w + 1] == b);
        }
        if earliest_after(epochs, epoch) is None {
            assert forall|k: int| 0 <= k < epochs.len() implies #[trigger] epochs[k] <= epoch by {
                if k > 0 {
                    assert(rest[k - 1] <= epoch);
                }
            }
        }
        if forall|k: int| 0 <= k < epochs.len() ==> #[trigger] epochs[k] <= epoch {
            assert forall|k: int| 0 <= k < rest.len() implies #[trigger] rest[k] <= epoch by {
                assert(epochs[k + 1] <= epoch);
            }
        }
        if let Some(b) = earliest_after(epochs, epoch) {
            assert forall|k: int| 0 <= k < epochs.len() && #[trigger] epochs[k] > epoch implies b
                <= epochs[k] by {
                if k > 0 {
                    assert(rest[k - 1] > epoch);
                }
            }
            if b == epochs[0] {
                assert(epochs.contains(epochs[0]));
            }
        }
    }
}

/// The fork announced as next is the nearest change after `epoch`. With no fork of the
/// schedule after `epoch`: the current version, at the earliest blob schedule epoch after
/// `epoch`, or at the far future epoch when there is none. With a first fork after
/// `epoch`: that fork, unless a blob schedule epoch comes strictly before it, in which
/// case the current version at the earliest such epoch.
pub proof fn next_fork_is_the_nearest_change(
    forks: Seq<Fork>,
    blob_epochs: Seq<u64>,
    current_version: [u8; 4],
    epoch: u64,
)
    ensures
        ({
            let r = spec_next_fork(forks, blob_epochs, current_version, epoch);
            &&& (forall|j: int| 0 <= j < forks.len() ==> #[trigger] forks[j].epoch <= epoch) ==> {
                &&& (forall|k: int| 0 <= k < blob_epochs.len() ==> #[trigger] blob_epochs[k] <= epoch)
                    ==> r == (current_version, FAR_FUTURE_EPOCH)
                &&& (exists|k: int| 0 <= k < blob_epochs.len() && #[trigger] blob_epochs[k] > epoch)
                    ==> {
                    &&& r.0 == current_version
                    &&& r.1 > epoch
                    &&& blob_epochs.contains(r.1)
                    &&& forall|k: int|
                        0 <= k < blob_epochs.len() && #[trigger] blob_epochs[k] > epoch ==> r.1
                            <= blob_epochs[k]
                }
            }
            &&& forall|i: int|
                0 <= i < forks.len() && #[trigger] forks[i].epoch > epoch && (forall|j: int|
                    0 <= j < i ==> #[trigger] forks[j].epoch <= epoch) ==> {
                    &&& (forall|k: int|
                        0 <= k < blob_epochs.len() && #[trigger] blob_epochs[k] > epoch
                            ==> blob_epochs[k] >= forks[i].epoch) ==> r == (
                        forks[i].current_version,
                        forks[i].epoch,
                    )
                    &&& (exists|k: int|
                        0 <= k < blob_epochs.len() && #[trigger] blob_epochs[k] > epoch
                            && blob_epochs[k] < forks[i].epoch) ==> {
                        &&& r.0 == current_version
                        &&& r.1 > epoch
                        &&& r.1 < forks[i].epoch
                        &&& blob_epochs.contains(r.1)
                        &&& forall|k: int|
                            0 <= k < blob_epochs.len() && #[trigger] blob_epochs[k] > epoch ==> r.1
                                <= blob_epochs[k]
                    }
                }
        }),
{
    lemma_first_fork_after(forks, epoch);
    lemma_earliest_after(blob_epochs, epoch);
    let f = first_fork_after(forks, epoch);
    if forall|j: int| 0 <= j < forks.len() ==> #[trigger] forks[j].epoch <= epoch {
        if f < forks.len() {
            assert(forks[f].epoch <= epoch);
        }
    }
    assert forall|i: int|
        0 <= i < forks.len() && #[trigger] forks[i].epoch > epoch && (forall|j: int|
            0 <= j < i ==> #[trigger] forks[j].epoch <= epoch) implies i == f by {
        if i < f {
            assert(forks[i].epoch <= epoch);
        } else if f < i {
            assert(forks[f].epoch <= epoch);
        }
    }
    if let Some(b) = earliest_after(blob_epochs, epoch) {
        let w = choose|w: int| 0 <= w < blob_epochs.len() && blob_epochs[w] == b;
        assert(blob_epochs[w] > epoch);
    }
}

} // verus!
