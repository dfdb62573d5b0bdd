//! Powerset generation by size-ordered backtracking: all subsets of size
//! 0, then of size 1, and so on, each size group in lexicographic index
//! order.

use vstd::prelude::*;

verus! {

/// The subsets reached by extending `curr` with elements taken from
/// `set[first..]`, in backtracking order, keeping only those that reach
/// size `k`.
pub open spec fn backtrack_spec(first: int, k: nat, curr: Seq<i32>, set: Seq<i32>) -> Seq<
    Seq<i32>,
>
    decreases set.len() - first, 1int,
{
    if curr.len() == k {
        seq![curr]
    } else {
        backtrack_loop(first, k, curr, set)
    }
}

/// The concatenation of the backtracking results for start positions
/// `first`, `first + 1`, ...
pub open spec fn backtrack_loop(first: int, k: nat, curr: Seq<i32>, set: Seq<i32>) -> Seq<
    Seq<i32>,
>
    decreases set.len() - first, 0int,
{
    if first < 0 || first >= set.len() {
        Seq::<Seq<i32>>::empty()
    } else {
        backtrack_spec(first + 1, k, curr.push(set[first]), set) + backtrack_loop(
            first + 1,
            k,
            curr,
            set,
        )
    }
}

/// All subsets, grouped by size `0, 1, ..., e - 1`.
pub open spec fn powerset_upto(set: Seq<i32>, e: nat) -> Seq<Seq<i32>>
    decreases e,
{
    if e == 0 {
        Seq::<Seq<i32>>::empty()
    } else {
        powerset_upto(set, (e - 1) as nat) + backtrack_spec(0, (e - 1) as nat, Seq::empty(), set)
    }
}

fn copy_vec(v: &Vec<i32>) -> (r: Vec<i32>)
    ensures
        r@ == v@,
{
    let mut r: Vec<i32> = Vec::new();
    let mut i: usize = 0;
    while i < v.len()
        invariant
            0 <= i <= v@.len(),
            r@ == v@.take(i as int),
        decreases v@.len() - i,
    {
        r.push(v[i]);
        i += 1;
        proof {
            assert(r@ =~= v@.take(i as int));
        }
    }
    proof {
        assert(v@.take(v@.len() as int) =~= v@);
    }
    r
}

/// Extends `output` with every subset of size `k` that extends `curr`
/// using elements from `set[first..]`; `curr` is left as it was.
pub fn backtrack(first: usize, k: usize, curr: &mut Vec<i32>, set: &[i32], output: &mut Vec<
    Vec<i32>,
>)
    ensures
        final(curr)@ == old(curr)@,
        final(output).deep_view() == old(output).deep_view() + backtrack_spec(
            first as int,
            k as nat,
            old(curr)@,
            set@,
        ),
    decreases set@.len() - first, 1int,
{
    if curr.len() == k {
        let c = copy_vec(curr);
        output.push(c);
        proof {
            assert(output.deep_view() =~~= old(output).deep_view() + backtrack_spec(
                first as int,
                k as nat,
                old(curr)@,
                set@,
            ));
        }
        return ;
    }
    let mut i = first;
    while i < set.len()
        invariant
            first <= i,
            curr@ == old(curr)@,
            curr@.len() != k,
            output.deep_view() + backtrack_loop(i as int, k as nat, curr@, set@) == old(
                output,
            ).deep_view() + backtrack_loop(first as int, k as nat, curr@, set@),
        decreases set@.len() - i,
    {
        curr.push(set[i]);
        let ghost before = output.deep_view();
        backtrack(i + 1, k, curr, set, output);
        curr.pop();
        proof {
            assert(curr@ =~= old(curr)@);
            assert(output.deep_view() =~~= before + backtrack_spec(
                i + 1,
                k as nat,
                old(curr)@.push(set@[i as int]),
                set@,
            ));
            assert(output.deep_view() + backtrack_loop(i + 1, k as nat, curr@, set@) =~~= old(
                output,
            ).deep_view() + backtrack_loop(first as int, k as nat, curr@, set@));
        }
        i += 1;
    }
    proof {
        assert(output.deep_view() =~~= old(output).deep_view() + backtrack_spec(
            first as int,
            k as nat,
            old(curr)@,
            set@,
        ));
    }
}

/// Every subset of `set`, grouped by size.
pub fn powerset(set: &[i32]) -> (r: Vec<Vec<i32>>)
    requires
        set@.len() < usize::MAX,
    ensures
        r.deep_view() == powerset_upto(set@, (set@.len() + 1) as nat),
{
    let mut output: Vec<Vec<i32>> = Vec::new();
    let n = set.len();
    let mut k: usize = 0;
    while k <= n
        invariant
            0 <= k <= n + 1,
            n == set@.len(),
            n < usize::MAX,
            output.deep_view() == powerset_upto(set@, k as nat),
        decreases n + 1 - k,
    {
        let mut curr: Vec<i32> = Vec::new();
        backtrack(0, k, &mut curr, set, &mut output);
        k += 1;
        proof {
            assert(output.deep_view() =~~= powerset_upto(set@, k as nat));
        }
    }
    output
}

} // verus!
