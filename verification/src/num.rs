//! Integer square root: the floor of the real square root, with a
//! uniqueness lemma so that the executable search pins down the
//! specification-level value exactly.

use vstd::prelude::*;

verus! {

/// `r` is the floor of the real square root of `n`.
pub open spec fn is_isqrt(n: nat, r: nat) -> bool {
    r * r <= n && n < (r + 1) * (r + 1)
}

/// The floor of the real square root of `n`.
pub open spec fn isqrt_spec(n: nat) -> nat {
    choose|r: nat| is_isqrt(n, r)
}

/// At most one natural number is the floor of the square root of `n`.
pub proof fn lemma_isqrt_unique(n: nat, a: nat, b: nat)
    by (nonlinear_arith)
    requires
        a * a <= n,
        n < (a + 1) * (a + 1),
        b * b <= n,
        n < (b + 1) * (b + 1),
    ensures
        a == b,
{
}

/// Any `r` satisfying the floor characterization equals `isqrt_spec(n)`.
pub proof fn lemma_isqrt_is(n: nat, r: nat)
    requires
        is_isqrt(n, r),
    ensures
        isqrt_spec(n) == r,
{
    assert(is_isqrt(n, isqrt_spec(n))) by {
        assert(exists|q: nat| is_isqrt(n, q));
    }
    lemma_isqrt_unique(n, isqrt_spec(n), r);
}

/// Floor of the square root of `n`, by binary search.
pub fn isqrt(n: u64) -> (r: u64)
    ensures
        is_isqrt(n as nat, r as nat),
        r == isqrt_spec(n as nat),
        r <= n,
{
    let mut lo: u64 = 0;
    let mut hi: u64 = 4294967296;
    proof {
        assert((hi as nat) * (hi as nat) > n as nat) by (nonlinear_arith)
            requires
                hi == 4294967296u64,
                n <= 0xffffffffffffffffu64,
        ;
    }
    while hi - lo > 1
        invariant
            lo < hi,
            hi <= 4294967296,
            (lo as nat) * (lo as nat) <= n as nat,
            (n as nat) < (hi as nat) * (hi as nat),
        decreases hi - lo,
    {
        let mid: u64 = lo + (hi - lo) / 2;
        proof {
            assert((mid as u128) * (mid as u128) <= 0x10000000000000000u128)
                by (nonlinear_arith)
                requires
                    mid <= 4294967296u64,
            ;
        }
        let sq: u128 = (mid as u128) * (mid as u128);
        if sq <= n as u128 {
            lo = mid;
        } else {
            hi = mid;
        }
    }
    proof {
        assert(hi == lo + 1);
        assert(is_isqrt(n as nat, lo as nat));
        lemma_isqrt_is(n as nat, lo as nat);
        assert(lo <= n) by (nonlinear_arith)
            requires
                (lo as nat) * (lo as nat) <= n as nat,
        ;
    }
    lo
}

} // verus!
