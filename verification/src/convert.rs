//! Conversions between spiral indices and cube coordinates.
//!
//! A hexagon on ring `n` at offset `k` into the ring has cube
//! coordinates `(q, r, s)` where `q` and `r` are the growing truncated
//! triangle wave at phases 0 and 4, and `s = -q - r` closes the
//! `q + r + s == 0` invariant.  Walking a ring, each coordinate in
//! turn holds a plateau at `n` or `-n` while the other two move, which
//! is what makes the map from offsets to triples invertible.

use crate::rings::MAX_SPIRAL;
use crate::rings::lemma_ring_of;
use crate::rings::lemma_ring_start_mono;
use crate::rings::lemma_ring_start_step;
use crate::rings::lemma_ring_unique;
use crate::rings::on_ring;
use crate::rings::ring_first_index;
use crate::rings::ring_number;
use crate::rings::ring_start;
use crate::rings::spec_ring;
use crate::wave::growing_trunc_tri;
use crate::wave::lemma_wave_q;
use crate::wave::lemma_wave_r;
use crate::wave::spec_wave;
use vstd::prelude::*;

verus! {

/// The cube coordinates of the hexagon at offset `k` into ring `n`.
pub open spec fn ring_cube(n: int, k: int) -> (int, int, int) {
    let q: int = spec_wave(n, k, 0);
    let r: int = spec_wave(n, k, 4);
    (q, r, -q - r)
}

/// The largest magnitude among the three components of a cube
/// coordinate: the number of the ring the coordinate lies on.
pub open spec fn max_abs(t: (int, int, int)) -> int {
    vstd::math::max3(
        vstd::math::abs(t.0) as int,
        vstd::math::abs(t.1) as int,
        vstd::math::abs(t.2) as int,
    )
}

/// The offset into ring `n` at which the cube coordinate `t` lies:
/// the inverse of `ring_cube(n, _)`, read off from whichever component
/// is pinned to `n` or `-n` on its plateau.
pub open spec fn pos_in_ring(n: int, t: (int, int, int)) -> int {
    if t.1 == -n {
        t.0
    } else if t.0 == n {
        t.1 + 2 * n
    } else if t.2 == -n {
        t.1 + 2 * n
    } else if t.1 == n {
        t.2 + 4 * n
    } else if t.0 == -n {
        t.2 + 4 * n
    } else {
        t.0 + 6 * n
    }
}

/// Every hexagon of ring `n` satisfies the cube invariants: its
/// components sum to zero, stay within `n` in magnitude, the largest
/// magnitude is exactly `n`, and `pos_in_ring` recovers the offset.
pub proof fn lemma_ring_cube(n: int, k: int)
    requires
        1 <= n,
        0 <= k < 6 * n,
    ensures
        ring_cube(n, k).0 + ring_cube(n, k).1 + ring_cube(n, k).2 == 0,
        -n <= ring_cube(n, k).0 <= n,
        -n <= ring_cube(n, k).1 <= n,
        -n <= ring_cube(n, k).2 <= n,
        max_abs(ring_cube(n, k)) == n,
        pos_in_ring(n, ring_cube(n, k)) == k,
{
    lemma_wave_q(n, k);
    lemma_wave_r(n, k);
}

/// Every cube coordinate that sums to zero and reaches magnitude `n`
/// is the hexagon of ring `n` at offset `pos_in_ring`: the ring holds
/// all such coordinates.
pub proof fn lemma_ring_cube_complete(n: int, t: (int, int, int))
    requires
        1 <= n,
        t.0 + t.1 + t.2 == 0,
        max_abs(t) == n,
    ensures
        0 <= pos_in_ring(n, t) < 6 * n,
        ring_cube(n, pos_in_ring(n, t)) == t,
{
    let k = pos_in_ring(n, t);
    assert(0 <= k < 6 * n);
    lemma_wave_q(n, k);
    lemma_wave_r(n, k);
}

/// The spiral index found by walking ring `n` from offset `k` upward
/// to the first hexagon whose cube coordinates equal `t`.
pub open spec fn scan_ring(n: int, t: (int, int, int), k: int) -> Option<int>
    decreases 6 * n - k,
{
    if k < 0 || 6 * n <= k {
        None
    } else if ring_cube(n, k) == t {
        Some(ring_start(n) + k)
    } else {
        scan_ring(n, t, k + 1)
    }
}

/// The cube coordinates of the hexagon at spiral index `x`.
pub open spec fn spec_spiral_to_cube(x: int) -> (int, int, int) {
    if x <= 0 {
        (0int, 0int, 0int)
    } else {
        ring_cube(spec_ring(x), x - ring_start(spec_ring(x)))
    }
}

/// The spiral index of the hexagon at cube coordinates `t`: the first
/// index on ring `max_abs(t)` whose coordinates equal `t`.
pub open spec fn spec_cube_to_spiral(t: (int, int, int)) -> Option<int> {
    if t == (0int, 0int, 0int) {
        Some(0int)
    } else {
        scan_ring(max_abs(t), t, 0)
    }
}

/// The three components of a machine cube coordinate, as integers.
pub open spec fn cube_view(t: (i8, i8, i8)) -> (int, int, int) {
    (t.0 as int, t.1 as int, t.2 as int)
}

/// A scan that has not yet passed an offset whose coordinates equal
/// `t` still has the whole answer ahead of it.
proof fn lemma_scan_skip(n: int, t: (int, int, int), k: int)
    requires
        1 <= n,
        0 <= k < 6 * n,
        ring_cube(n, k) != t,
    ensures
        scan_ring(n, t, k) == scan_ring(n, t, k + 1),
{
}

/// Converts spiral coordinate `x` to cube coordinates `(q, r, s)`.
///
/// The origin is `(0, 0, 0)`; any other index is the hexagon at offset
/// `x - ring_start(n)` into its ring `n`.  The components always sum
/// to zero, and the largest component magnitude is exactly the ring
/// number.
pub fn spiral_to_cube(x: usize) -> (t: (i8, i8, i8))
    requires
        x <= MAX_SPIRAL,
    ensures
        cube_view(t) == spec_spiral_to_cube(x as int),
        t.0 + t.1 + t.2 == 0,
        x == 0 <==> t == (0i8, 0i8, 0i8),
        1 <= x ==> max_abs(cube_view(t)) == spec_ring(x as int),
        max_abs(cube_view(t)) <= 127,
        t.0 > i8::MIN && t.1 > i8::MIN && t.2 > i8::MIN,
{
    if x == 0 {
        return (0, 0, 0);
    }
    let n = ring_number(x);
    proof {
        lemma_ring_of(x as int);
        lemma_ring_unique(x as int, n as int, spec_ring(x as int));
        lemma_ring_start_step(n as int);
    }
    let off = ring_first_index(n);
    let q = growing_trunc_tri(x as i64, n as i64, off as i64, 0);
    let r = growing_trunc_tri(x as i64, n as i64, off as i64, 4);
    proof {
        lemma_ring_cube(n as int, x - off);
    }
    let s = -q - r;
    (q, r, s)
}

/// Converts cube coordinates back to a spiral coordinate.
///
/// The components must sum to zero: a triple that does not is a
/// malformed cube coordinate, a caller error that this function
/// refuses ahead of time rather than reports.  Every well-formed
/// triple lies on the ring of its largest component magnitude, and the
/// search of that ring always finds it, so the result is never `None`;
/// the option is kept so that a search miss would be reportable rather
/// than fatal.
pub fn cube_to_spiral(qrs: (i8, i8, i8)) -> (found: Option<usize>)
    requires
        qrs.0 + qrs.1 + qrs.2 == 0,
        qrs.0 > i8::MIN,
        qrs.1 > i8::MIN,
        qrs.2 > i8::MIN,
    ensures
        found is Some,
        spec_cube_to_spiral(cube_view(qrs)) == Some(found->Some_0 as int),
        found->Some_0 <= MAX_SPIRAL,
        spec_spiral_to_cube(found->Some_0 as int) == cube_view(qrs),
        qrs == (0i8, 0i8, 0i8) ==> found == Some(0usize),
{
    let (q, r, s) = qrs;
    if q == 0 && r == 0 && s == 0 {
        return Some(0);
    }
    let qa = if q < 0 { -q } else { q };
    let ra = if r < 0 { -r } else { r };
    let sa = if s < 0 { -s } else { s };
    let n = if qa >= ra && qa >= sa {
        qa
    } else if ra >= sa {
        ra
    } else {
        sa
    };
    let ghost tv = cube_view(qrs);
    proof {
        assert(max_abs(tv) == n as int);
        lemma_ring_start_mono(n as int + 1, 128);
        assert(ring_start(128) == 48769);
        lemma_ring_start_step(n as int);
    }
    let nu = n as usize;
    let off = ring_first_index(nu);
    let mut k: usize = 0;
    while k < 6 * nu
        invariant
            1 <= nu <= 127,
            off as int == ring_start(nu as int),
            ring_start(nu as int + 1) == off + 6 * nu <= MAX_SPIRAL as int + 1,
            0 <= k <= 6 * nu,
            tv == cube_view(qrs),
            tv == (q as int, r as int, s as int),
            tv.0 + tv.1 + tv.2 == 0,
            max_abs(tv) == nu as int,
            tv != (0int, 0int, 0int),
            scan_ring(nu as int, tv, 0) == scan_ring(nu as int, tv, k as int),
            forall|j: int| 0 <= j < k ==> ring_cube(nu as int, j) != tv,
        decreases 6 * nu - k,
    {
        let x = off + k;
        proof {
            lemma_ring_start_mono(1, nu as int);
            assert(x >= 1);
            assert(on_ring(x as int, nu as int));
            lemma_ring_of(x as int);
            lemma_ring_unique(x as int, nu as int, spec_ring(x as int));
        }
        let c = spiral_to_cube(x);
        proof {
            assert(spec_spiral_to_cube(x as int) == ring_cube(nu as int, k as int));
            assert(cube_view(c) == ring_cube(nu as int, k as int));
        }
        if c.0 == q && c.1 == r && c.2 == s {
            proof {
                assert(ring_cube(nu as int, k as int) == tv);
                assert(scan_ring(nu as int, tv, k as int) == Some(x as int));
            }
            return Some(x);
        }
        proof {
            assert(ring_cube(nu as int, k as int) != tv);
            lemma_scan_skip(nu as int, tv, k as int);
        }
        k = k + 1;
    }
    proof {
        lemma_ring_cube_complete(nu as int, tv);
        let k0 = pos_in_ring(nu as int, tv);
        assert(ring_cube(nu as int, k0) != tv);
        assert(false);
    }
    None
}

/// Round trip: converting a spiral index to cube coordinates and back
/// recovers the index, for every index the machine representation
/// supports.
pub proof fn lemma_round_trip(x: int)
    requires
        0 <= x <= MAX_SPIRAL as int,
    ensures
        spec_cube_to_spiral(spec_spiral_to_cube(x)) == Some(x),
{
    if x == 0 {
        assert(spec_cube_to_spiral((0int, 0int, 0int)) == Some(0int));
    } else {
        lemma_ring_of(x);
        let n = spec_ring(x);
        let k0 = x - ring_start(n);
        lemma_ring_start_step(n);
        lemma_ring_cube(n, k0);
        let t = ring_cube(n, k0);
        assert(t != (0int, 0int, 0int));
        lemma_scan_to_match(n, t, 0, k0);
    }
}

/// Scanning a ring from offset `j` finds the hexagon at `k0` when no
/// offset between them carries the same coordinates.
proof fn lemma_scan_to_match(n: int, t: (int, int, int), j: int, k0: int)
    requires
        1 <= n,
        0 <= j <= k0 < 6 * n,
        ring_cube(n, k0) == t,
        pos_in_ring(n, t) == k0,
    ensures
        scan_ring(n, t, j) == Some(ring_start(n) + k0),
    decreases k0 - j,
{
    if j < k0 {
        lemma_ring_cube(n, j);
        assert(ring_cube(n, j) != t);
        lemma_scan_to_match(n, t, j + 1, k0);
    }
}

} // verus!
