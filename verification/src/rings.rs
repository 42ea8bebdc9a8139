//! The concentric rings of the spiral.
//!
//! Ring 0 is the origin hexagon alone; ring `n` (for `n >= 1`) holds
//! the `6 * n` hexagons whose largest cube component has magnitude
//! `n`, and its smallest spiral index is `3 * n * (n - 1) + 1`.  The
//! ring arithmetic itself is supplied by the `hex_spiral` crate; this
//! module states what it computes and proves the facts about ring
//! boundaries that the conversions rely on.

use vstd::prelude::*;

verus! {

/// The largest spiral index whose cube coordinates fit in `i8`
/// components: the last index of ring 127, `ring_start(128) - 1`.
pub const MAX_SPIRAL: usize = 48768;

/// The smallest spiral index on ring `n`: 0 for the origin ring, else
/// `3 * n * (n - 1) + 1`.
pub open spec fn ring_start(n: int) -> int {
    if n <= 0 {
        0
    } else {
        3 * n * (n - 1) + 1
    }
}

/// Spiral index `x` lies on ring `n` (for `n >= 1`): it is at or past
/// the first index of ring `n` and short of the first index of ring
/// `n + 1`.
pub open spec fn on_ring(x: int, n: int) -> bool {
    &&& 1 <= n
    &&& ring_start(n) <= x < ring_start(n + 1)
}

/// The ring that contains spiral index `x >= 1`.
pub open spec fn spec_ring(x: int) -> int {
    choose|n: int| on_ring(x, n)
}

/// Each ring begins `6 * n` indices after the one before it: ring `n`
/// holds exactly `6 * n` hexagons.
pub proof fn lemma_ring_start_step(n: int)
    requires
        1 <= n,
    ensures
        ring_start(n + 1) == ring_start(n) + 6 * n,
{
    assert(3 * (n + 1) * n == 3 * n * (n - 1) + 6 * n) by (nonlinear_arith);
}

/// Ring starts never decrease as the ring number grows.
pub proof fn lemma_ring_start_mono(a: int, b: int)
    requires
        0 <= a <= b,
    ensures
        ring_start(a) <= ring_start(b),
{
    if a == 0 {
        if b >= 1 {
            assert(3 * b * (b - 1) >= 0) by (nonlinear_arith)
                requires
                    b >= 1,
            ;
        }
    } else {
        assert(3 * a * (a - 1) <= 3 * b * (b - 1)) by (nonlinear_arith)
            requires
                1 <= a <= b,
        ;
    }
}

/// A spiral index lies on at most one ring.
pub proof fn lemma_ring_unique(x: int, n: int, m: int)
    requires
        on_ring(x, n),
        on_ring(x, m),
    ensures
        n == m,
{
    if n < m {
        lemma_ring_start_mono(n + 1, m);
    } else if m < n {
        lemma_ring_start_mono(m + 1, n);
    }
}

proof fn lemma_find_ring(x: int, n: int)
    requires
        1 <= n,
        ring_start(n) <= x,
    ensures
        exists|m: int| on_ring(x, m),
    decreases x - ring_start(n),
{
    lemma_ring_start_step(n);
    if x < ring_start(n + 1) {
        assert(on_ring(x, n));
    } else {
        lemma_find_ring(x, n + 1);
    }
}

/// Every positive spiral index lies on a ring, and `spec_ring` names
/// it; indices up to `MAX_SPIRAL` lie no further out than ring 127.
pub proof fn lemma_ring_of(x: int)
    requires
        1 <= x,
    ensures
        on_ring(x, spec_ring(x)),
        1 <= spec_ring(x),
        ring_start(spec_ring(x)) <= x < ring_start(spec_ring(x) + 1),
        x <= MAX_SPIRAL as int ==> spec_ring(x) <= 127,
{
    lemma_find_ring(x, 1);
    let n = spec_ring(x);
    assert(on_ring(x, n));
    if x <= MAX_SPIRAL as int && n >= 128 {
        lemma_ring_start_mono(128, n);
        assert(ring_start(128) == 48769);
    }
}

/// Relies on `hex_spiral::ring_offset`: for `ring == 0` it returns 0,
/// and otherwise `3 * (ring - 1) * ring + 1`, the smallest spiral
/// index on that ring.
#[verifier::external_body]
pub(crate) fn ring_first_index(ring: usize) -> (off: usize)
    requires
        ring <= 128,
    ensures
        off as int == ring_start(ring as int),
{
    hex_spiral::ring_offset(ring)
}

/// Relies on `hex_spiral::ring`: it walks the ring offsets upward and
/// returns the index of the ring containing `pos`, the unique `n` with
/// `ring_offset(n) <= pos < ring_offset(n + 1)`.
#[verifier::external_body]
pub(crate) fn ring_number(pos: usize) -> (n: usize)
    requires
        1 <= pos <= MAX_SPIRAL,
    ensures
        on_ring(pos as int, n as int),
{
    hex_spiral::ring(pos)
}

} // verus!
