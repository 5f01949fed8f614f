//! Index arithmetic on a ring of `size` slots.

use vstd::arithmetic::div_mod::{
    lemma_add_mod_noop, lemma_fundamental_div_mod, lemma_mod_add_multiples_vanish,
    lemma_mod_bound, lemma_mod_twice, lemma_small_mod,
};
use vstd::prelude::*;

verus! {

/// The slot `delay` steps behind `pos`, without leaving the ring.
pub proof fn lemma_wrap_behind(pos: int, delay: int, size: int)
    requires
        0 <= pos < size,
        0 <= delay <= size,
    ensures
        (size - delay + pos) % size == if pos >= delay {
            pos - delay
        } else {
            size - delay + pos
        },
{
    if pos >= delay {
        lemma_mod_add_multiples_vanish(pos - delay, size);
        lemma_small_mod((pos - delay) as nat, size as nat);
    } else {
        lemma_small_mod((size - delay + pos) as nat, size as nat);
    }
}

/// Reducing a position before moving on from it changes nothing.
pub proof fn lemma_wrap_shift(pos: int, steps: int, size: int)
    requires
        0 < size,
    ensures
        (pos % size + steps) % size == (pos + steps) % size,
        0 <= pos % size < size,
{
    lemma_mod_bound(pos, size);
    lemma_add_mod_noop(pos, steps, size);
    lemma_add_mod_noop(pos % size, steps, size);
    lemma_mod_twice(pos, size);
}

/// Two positions less than a lap apart are different slots.
pub proof fn lemma_wrap_distinct(base: int, near: int, far: int, size: int)
    requires
        0 < size,
        0 < far - near < size,
    ensures
        (base + near) % size != (base + far) % size,
{
    let a = base + near;
    let b = base + far;
    lemma_fundamental_div_mod(a, size);
    lemma_fundamental_div_mod(b, size);
    lemma_mod_bound(a, size);
    lemma_mod_bound(b, size);
    if a % size == b % size {
        let q = b / size - a / size;
        assert(size * (b / size) - size * (a / size) == size * q) by (nonlinear_arith)
            requires
                q == b / size - a / size,
        ;
        assert(far - near == size * q);
        assert(false) by (nonlinear_arith)
            requires
                0 < size,
                0 < size * q < size,
        ;
    }
}

} // verus!
