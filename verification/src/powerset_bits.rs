//! Powerset generation by bitmask enumeration: subset `m` holds the
//! elements whose index bit is set in `m`.

use vstd::prelude::*;

verus! {

/// The elements of `set[..j]` selected by the bits of `m`, in order.
pub open spec fn mask_subset(set: Seq<i32>, m: u32, j: nat) -> Seq<i32>
    decreases j,
{
    if j == 0 {
        Seq::<i32>::empty()
    } else {
        mask_subset(set, m, (j - 1) as nat) + (if m & (1u32 << (((j - 1) as nat) as u32)) > 0 {
            seq![set[j - 1]]
        } else {
            Seq::<i32>::empty()
        })
    }
}

/// The subsets selected by masks `0, 1, ..., e - 1`.
pub open spec fn mask_subsets_upto(set: Seq<i32>, e: nat) -> Seq<Seq<i32>>
    decreases e,
{
    if e == 0 {
        Seq::<Seq<i32>>::empty()
    } else {
        mask_subsets_upto(set, (e - 1) as nat).push(
            mask_subset(set, ((e - 1) as nat) as u32, set.len()),
        )
    }
}

/// Every subset of `set`, enumerated by bitmask.
pub fn powerset(set: &[i32]) -> (r: Vec<Vec<i32>>)
    requires
        set@.len() < 32,
    ensures
        r.deep_view() == mask_subsets_upto(set@, (1u32 << (set@.len() as u32)) as nat),
{
    let mut result: Vec<Vec<i32>> = Vec::new();
    let n = set.len();
    let cardinal: u32 = 1u32 << (n as u32);
    let mut subset_elt: u32 = 0;
    while subset_elt < cardinal
        invariant
            0 <= subset_elt <= cardinal,
            n == set@.len(),
            n < 32,
            cardinal == 1u32 << (n as u32),
            result.deep_view() == mask_subsets_upto(set@, subset_elt as nat),
        decreases cardinal - subset_elt,
    {
        let mut subset: Vec<i32> = Vec::new();
        let mut elt: usize = 0;
        while elt < n
            invariant
                0 <= elt <= n,
                n == set@.len(),
                n < 32,
                subset@ == mask_subset(set@, subset_elt, elt as nat),
            decreases n - elt,
        {
            if subset_elt & (1u32 << (elt as u32)) > 0 {
                subset.push(set[elt]);
            }
            elt += 1;
            proof {
                assert(subset@ =~= mask_subset(set@, subset_elt, elt as nat));
            }
        }
        result.push(subset);
        subset_elt += 1;
        proof {
            assert(result.deep_view() =~~= mask_subsets_upto(set@, subset_elt as nat));
        }
    }
    result
}

} // verus!
