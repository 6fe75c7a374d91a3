//! Boundary values of `u64` for exercising the library's time and counter
//! arithmetic: each power of two from 2^0 to 2^64 and its near neighbours,
//! clamped into the `u64` range.
use vstd::prelude::*;
use vstd::arithmetic::power2::{
    pow2,
    lemma_pow2_unfold,
    lemma_pow2_strictly_increases,
    lemma2_to64,
};

verus! {

/// The `k`-th offset taken around each power of two.
pub open spec fn offset(k: int) -> int {
    if k == 0 {
        -42
    } else if k == 1 {
        -7
    } else if k == 2 {
        -1
    } else if k == 3 {
        0
    } else if k == 4 {
        1
    } else if k == 5 {
        7
    } else {
        42
    }
}

/// `x` clamped into the `u64` range.
pub open spec fn clamp_u64(x: int) -> u64 {
    if x < 0 {
        0
    } else if x > u64::MAX {
        u64::MAX
    } else {
        x as u64
    }
}

/// `2^e` plus the `k`-th offset, clamped.
pub open spec fn boundary_value(e: nat, k: int) -> u64 {
    clamp_u64(pow2(e) + offset(k))
}

/// A boundary value: some power of two up to 2^64 plus one of the offsets.
pub open spec fn is_boundary_value(v: u64) -> bool {
    exists|e: nat, k: int| e <= 64 && 0 <= k < 7 && v == boundary_value(e, k)
}

/// Strictly increasing.
pub open spec fn strictly_sorted(s: Seq<u64>) -> bool {
    forall|i: int, j: int| 0 <= i < j < s.len() ==> s[i] < s[j]
}

fn value_near(p: u128, k: usize) -> (r: u64)
    requires
        p <= 0x1_0000_0000_0000_0000,
        k < 7,
    ensures
        r == clamp_u64(p + offset(k as int)),
{
    let x: u128 = if k == 0 {
        if p >= 42 { p - 42 } else { 0 }
    } else if k == 1 {
        if p >= 7 { p - 7 } else { 0 }
    } else if k == 2 {
        if p >= 1 { p - 1 } else { 0 }
    } else if k == 3 {
        p
    } else if k == 4 {
        p + 1
    } else if k == 5 {
        p + 7
    } else {
        p + 42
    };
    if x > u64::MAX as u128 {
        u64::MAX
    } else {
        x as u64
    }
}

fn insert_sorted(v: &mut Vec<u64>, x: u64)
    requires
        strictly_sorted(old(v)@),
    ensures
        strictly_sorted(final(v)@),
        forall|y: u64| final(v)@.contains(y) <==> (old(v)@.contains(y) || y == x),
{
    let mut p: usize = 0;
    while p < v.len() && v[p] < x
        invariant
            v@ == old(v)@,
            p <= v@.len(),
            forall|i: int| 0 <= i < p ==> v@[i] < x,
        decreases v@.len() - p,
    {
        p += 1;
    }
    if p < v.len() && v[p] == x {
        proof {
            assert forall|y: u64| v@.contains(y) <==> (old(v)@.contains(y) || y == x) by {
                assert(v@[p as int] == x);
            }
        }
        return;
    }
    v.insert(p, x);
    proof {
        assert forall|y: u64| v@.contains(y) <==> (old(v)@.contains(y) || y == x) by {
            assert(v@[p as int] == x);
            if v@.contains(y) {
                let i = choose|i: int| 0 <= i < v@.len() && v@[i] == y;
                if i < p as int {
                    assert(old(v)@[i] == y);
                } else if i > p as int {
                    assert(old(v)@[i - 1] == y);
                }
            }
            if old(v)@.contains(y) {
                let i = choose|i: int| 0 <= i < old(v)@.len() && old(v)@[i] == y;
                if i < p as int {
                    assert(v@[i] == y);
                } else {
                    assert(v@[i + 1] == y);
                }
            }
        }
    }
}

/// Every boundary value, once each, in increasing order.
pub fn get_u64_values_for_tests() -> (r: Vec<u64>)
    ensures
        strictly_sorted(r@),
        forall|v: u64| r@.contains(v) <==> is_boundary_value(v),
{
    let mut r: Vec<u64> = Vec::new();
    let mut p: u128 = 1;
    let mut e: usize = 0;
    proof {
        lemma2_to64();
    }
    while e <= 64
        invariant
            e <= 65,
            e <= 64 ==> p == pow2(e as nat),
            pow2(64) == 0x1_0000_0000_0000_0000,
            strictly_sorted(r@),
            forall|v: u64| r@.contains(v) ==> is_boundary_value(v),
            forall|e2: nat, k: int| e2 < e && 0 <= k < 7 ==> r@.contains(#[trigger] boundary_value(e2, k)),
        decreases 65 - e,
    {
        proof {
            if e < 64 {
                lemma_pow2_strictly_increases(e as nat, 64);
            }
        }
        let mut k: usize = 0;
        while k < 7
            invariant
                e <= 64,
                p == pow2(e as nat),
                p <= 0x1_0000_0000_0000_0000,
                k <= 7,
                strictly_sorted(r@),
                forall|v: u64| r@.contains(v) ==> is_boundary_value(v),
                forall|e2: nat, k2: int| e2 < e && 0 <= k2 < 7 ==> r@.contains(#[trigger] boundary_value(e2, k2)),
                forall|k2: int| 0 <= k2 < k ==> r@.contains(#[trigger] boundary_value(e as nat, k2)),
            decreases 7 - k,
        {
            let x = value_near(p, k);
            proof {
                assert(x == boundary_value(e as nat, k as int));
            }
            insert_sorted(&mut r, x);
            k += 1;
        }
        if e < 64 {
            proof {
                lemma_pow2_unfold((e + 1) as nat);
            }
            p = p * 2;
        }
        e += 1;
    }
    proof {
        assert forall|v: u64| is_boundary_value(v) implies r@.contains(v) by {
            let (e2, k) = choose|e2: nat, k: int| e2 <= 64 && 0 <= k < 7 && v == boundary_value(e2, k);
            assert(r@.contains(boundary_value(e2, k)));
        }
    }
    r
}

} // verus!
