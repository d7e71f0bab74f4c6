use vstd::prelude::*;
use vstd::relations::{sorted_by, total_ordering};

verus! {

/// The usual order on `u128`, as a relation.
pub open spec fn u128_leq() -> spec_fn(u128, u128) -> bool {
    |a: u128, b: u128| a <= b
}

/// The ascending sort of a sequence of `u128` values.
pub open spec fn sorted_u128(s: Seq<u128>) -> Seq<u128> {
    s.sort_by(u128_leq())
}

pub proof fn lemma_u128_leq_total()
    ensures
        total_ordering(u128_leq()),
{
}

/// Returns the values of `values` in ascending order.
pub fn sort_u128(values: &Vec<u128>) -> (sorted: Vec<u128>)
    ensures
        sorted@ == sorted_u128(values@),
        sorted_by(sorted@, u128_leq()),
        sorted@.to_multiset() == values@.to_multiset(),
        sorted@.len() == values@.len(),
{
    broadcast use vstd::seq_lib::group_to_multiset_ensures;

    let mut out: Vec<u128> = Vec::new();
    let mut i: usize = 0;
    while i < values.len()
        invariant
            i <= values.len(),
            sorted_by(out@, u128_leq()),
            out@.to_multiset() == values@.take(i as int).to_multiset(),
        decreases values.len() - i,
    {
        let x = values[i];
        let mut pos: usize = 0;
        while pos < out.len() && out[pos] <= x
            invariant
                pos <= out.len(),
                forall|k: int| 0 <= k < pos ==> out@[k] <= x,
            decreases out.len() - pos,
        {
            pos = pos + 1;
        }
        let ghost old_out = out@;
        out.insert(pos, x);
        proof {
            assert(out@ == old_out.insert(pos as int, x));
            assert forall|a: int, b: int| 0 <= a < b < out@.len() implies (#[trigger] u128_leq()(
                out@[a],
                out@[b],
            )) by {
                if b < pos {
                } else if b == pos {
                } else if a < pos {
                    assert(old_out[a] <= x);
                    if pos < old_out.len() {
                        assert(u128_leq()(old_out[a], old_out[pos as int]) || a == pos);
                    }
                    assert(u128_leq()(old_out[a], old_out[b - 1]));
                } else if a == pos {
                    assert(pos < old_out.len());
                    assert(!(old_out[pos as int] <= x));
                    if b - 1 > pos {
                        assert(u128_leq()(old_out[pos as int], old_out[b - 1]));
                    }
                } else {
                    assert(u128_leq()(old_out[a - 1], old_out[b - 1]));
                }
            }
            assert(values@.take(i + 1) =~= values@.take(i as int).push(x));
            vstd::seq_lib::to_multiset_build(values@.take(i as int), x);
            vstd::seq_lib::to_multiset_insert(old_out, pos as int, x);
        }
        i = i + 1;
    }
    proof {
        assert(values@.take(values.len() as int) =~= values@);
        lemma_u128_leq_total();
        values@.lemma_sort_by_ensures(u128_leq());
        vstd::seq_lib::lemma_sorted_unique(out@, sorted_u128(values@), u128_leq());
        vstd::seq_lib::to_multiset_len(out@);
        vstd::seq_lib::to_multiset_len(values@);
    }
    out
}

} // verus!
