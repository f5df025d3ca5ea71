//! Index arithmetic on a circular address space of `cap` slots.
use vstd::prelude::*;

verus! {

/// The physical slot of the element at logical offset `j` from `front`.
pub open spec fn slot(front: int, j: int, cap: int) -> int {
    if front + j < cap {
        front + j
    } else {
        front + j - cap
    }
}

/// Whether `n` is a power of two.  Capacities start at four and only ever
/// double or halve, so they stay powers of two.
pub open spec fn is_pow2(n: nat) -> bool
    decreases n,
{
    if n <= 1 {
        n == 1
    } else {
        n % 2 == 0 && is_pow2(n / 2)
    }
}

/// Four, the starting capacity, is a power of two.
pub proof fn lemma_pow2_four()
    ensures
        is_pow2(4),
{
    assert(is_pow2(1));
    assert(is_pow2(2));
}

/// Doubling a power of two gives a power of two.
pub proof fn lemma_pow2_double(n: nat)
    requires
        is_pow2(n),
    ensures
        is_pow2(2 * n),
{
    assert((2 * n) / 2 == n);
}

/// Halving a power of two above four gives a power of two of at least four.
pub proof fn lemma_pow2_halve(n: nat)
    requires
        is_pow2(n),
        n > 4,
    ensures
        n % 2 == 0,
        is_pow2(n / 2),
        n / 2 >= 4,
{
    let h = n / 2;
    if h < 4 {
        assert(h == 3);
        assert(!is_pow2(3));
    }
}

/// The slot after `i`, wrapping from the last slot back to the first.
pub fn next_index(i: usize, cap: usize) -> (r: usize)
    requires
        i < cap,
    ensures
        r < cap,
        r == slot(i as int, 1, cap as int),
        r as int == (i as int + 1) % (cap as int),
{
    if i + 1 == cap {
        proof {
            assert((i as int + 1) % (cap as int) == 0) by (nonlinear_arith)
                requires i as int + 1 == cap as int, cap > 0;
        }
        0
    } else {
        proof {
            assert((i as int + 1) % (cap as int) == i + 1) by (nonlinear_arith)
                requires i as int + 1 < cap as int;
        }
        i + 1
    }
}

/// The slot before `i`, wrapping from the first slot to the last: the floor
/// modulo of `i - 1`, which is never negative.
pub fn prev_index(i: usize, cap: usize) -> (r: usize)
    requires
        i < cap,
    ensures
        r < cap,
        slot(r as int, 1, cap as int) == i,
        r as int == (i as int - 1) % (cap as int),
{
    if i == 0 {
        proof {
            assert((i as int - 1) % (cap as int) == cap - 1) by (nonlinear_arith)
                requires i == 0, cap > 0;
        }
        cap - 1
    } else {
        proof {
            assert((i as int - 1) % (cap as int) == i - 1) by (nonlinear_arith)
                requires 0 < i < cap;
        }
        i - 1
    }
}

} // verus!
