//! Spiral placement mapping: a deterministic, injective map from an index
//! to the 2D lattice cell it occupies on an outward square spiral.
use vstd::prelude::*;

verus! {

/// Integer square root: the largest `r` with `r * r <= n`.
pub open spec fn sqrt_floor(n: nat) -> nat
    decreases n,
{
    if n == 0 {
        0
    } else {
        let r = sqrt_floor((n - 1) as nat);
        if (r + 1) * (r + 1) <= n {
            (r + 1) as nat
        } else {
            r
        }
    }
}

pub proof fn lemma_sqrt_floor_bounds(n: nat)
    ensures
        sqrt_floor(n) * sqrt_floor(n) <= n,
        n < (sqrt_floor(n) + 1) * (sqrt_floor(n) + 1),
    decreases n,
{
    if n == 0 {
        assert(sqrt_floor(n) == 0);
        assert(n < (sqrt_floor(n) + 1) * (sqrt_floor(n) + 1)) by (nonlinear_arith)
            requires
                n == 0 && sqrt_floor(n) == 0,
        ;
    } else {
        lemma_sqrt_floor_bounds((n - 1) as nat);
        let r = sqrt_floor((n - 1) as nat);
        assert(r * r <= n - 1);
        assert(n - 1 < (r + 1) * (r + 1));
        if (r + 1) * (r + 1) <= n {
            assert(sqrt_floor(n) == r + 1);
            assert(n == (r + 1) * (r + 1));
            assert(n < (r + 2) * (r + 2)) by (nonlinear_arith)
                requires
                    n == (r + 1) * (r + 1),
            ;
            assert(n < (sqrt_floor(n) + 1) * (sqrt_floor(n) + 1));
        } else {
            assert(sqrt_floor(n) == r);
            assert(n < (sqrt_floor(n) + 1) * (sqrt_floor(n) + 1));
        }
    }
}

proof fn lemma_sqrt_floor_unique(n: nat, r: nat)
    requires
        r * r <= n,
        n < (r + 1) * (r + 1),
    ensures
        r == sqrt_floor(n),
{
    lemma_sqrt_floor_bounds(n);
    let s = sqrt_floor(n);
    assert(r == s) by (nonlinear_arith)
        requires
            r * r <= n && n < (r + 1) * (r + 1) && s * s <= n && n < (s + 1) * (s + 1),
    ;
}

/// The ring (layer) that index `n >= 1` falls on.
pub open spec fn spiral_layer(n: nat) -> int {
    (sqrt_floor(n) - 1) / 2 + 1
}

/// The lattice point at offset `pos` along ring `l`, walking up the right
/// edge, left along the top, down the left edge, then right along the
/// bottom.
pub open spec fn ring_point(l: int, pos: int) -> (int, int) {
    if pos < 2 * l {
        (l, -l + 1 + pos)
    } else if pos < 4 * l {
        (l - 1 - (pos - 2 * l), l)
    } else if pos < 6 * l {
        (-l, l - 1 - (pos - 4 * l))
    } else {
        (-l + 1 + (pos - 6 * l), -l)
    }
}

/// The lattice cell that index `n` occupies on the outward square spiral.
pub open spec fn spiral_coords(n: nat) -> (int, int) {
    if n == 0 {
        (0, 0)
    } else {
        let l = spiral_layer(n);
        ring_point(l, n - (2 * l - 1) * (2 * l - 1))
    }
}

/// Index `n >= 1` lies on ring `spiral_layer(n)`: at or past that ring's
/// first index, and before the next ring's.
pub proof fn lemma_spiral_layer_bounds(n: nat)
    requires
        n >= 1,
    ensures
        spiral_layer(n) >= 1,
        (2 * spiral_layer(n) - 1) * (2 * spiral_layer(n) - 1) <= n,
        n < (2 * spiral_layer(n) + 1) * (2 * spiral_layer(n) + 1),
{
    lemma_sqrt_floor_bounds(n);
    let r = sqrt_floor(n) as int;
    assert(r >= 1) by (nonlinear_arith)
        requires
            n >= 1 && n < (r + 1) * (r + 1) && r >= 0,
    ;
    let q = (r - 1) / 2;
    let l = q + 1;
    vstd::arithmetic::div_mod::lemma_fundamental_div_mod(r - 1, 2);
    assert(2 * q <= r - 1 < 2 * q + 2);
    assert(2 * l - 1 <= r);
    assert(r + 1 <= 2 * l + 1);
    assert((2 * l - 1) * (2 * l - 1) <= r * r) by (nonlinear_arith)
        requires
            0 <= 2 * l - 1 <= r,
    ;
    assert((r + 1) * (r + 1) <= (2 * l + 1) * (2 * l + 1)) by (nonlinear_arith)
        requires
            0 <= r + 1 <= 2 * l + 1,
    ;
}

/// Distinct offsets along one ring land on distinct lattice points.
proof fn lemma_ring_injective(l: int, p1: int, p2: int)
    requires
        l >= 1,
        0 <= p1 < 8 * l,
        0 <= p2 < 8 * l,
        p1 != p2,
    ensures
        ring_point(l, p1) != ring_point(l, p2),
{
}

/// Every point of ring `l` has Chebyshev norm `l`.
proof fn lemma_ring_norm(l: int, pos: int)
    requires
        l >= 1,
        0 <= pos < 8 * l,
    ensures
        ring_point(l, pos).0 == l || ring_point(l, pos).0 == -l || ring_point(l, pos).1 == l
            || ring_point(l, pos).1 == -l,
        -l <= ring_point(l, pos).0 <= l,
        -l <= ring_point(l, pos).1 <= l,
{
}

/// The spiral mapping is injective: distinct indices are placed at
/// distinct lattice cells.
pub proof fn lemma_spiral_injective(m: nat, n: nat)
    requires
        m != n,
    ensures
        spiral_coords(m) != spiral_coords(n),
{
    if m == 0 || n == 0 {
        let k = if m == 0 {
            n
        } else {
            m
        };
        lemma_spiral_layer_bounds(k);
        let l = spiral_layer(k);
        let pos = k - (2 * l - 1) * (2 * l - 1);
        assert((2 * l + 1) * (2 * l + 1) - (2 * l - 1) * (2 * l - 1) == 8 * l)
            by (nonlinear_arith);
        lemma_ring_norm(l, pos);
        assert(ring_point(l, pos) != (0int, 0int));
    } else {
        lemma_spiral_layer_bounds(m);
        lemma_spiral_layer_bounds(n);
        let lm = spiral_layer(m);
        let ln = spiral_layer(n);
        let pm = m - (2 * lm - 1) * (2 * lm - 1);
        let pn = n - (2 * ln - 1) * (2 * ln - 1);
        assert((2 * lm + 1) * (2 * lm + 1) - (2 * lm - 1) * (2 * lm - 1) == 8 * lm)
            by (nonlinear_arith);
        assert((2 * ln + 1) * (2 * ln + 1) - (2 * ln - 1) * (2 * ln - 1) == 8 * ln)
            by (nonlinear_arith);
        lemma_ring_norm(lm, pm);
        lemma_ring_norm(ln, pn);
        if lm == ln {
            lemma_ring_injective(lm, pm, pn);
        }
    }
}

/// The spiral stays within its ring: both coordinates of index `n` are
/// bounded by the layer, which itself is within the square root of `n`.
pub proof fn lemma_spiral_coords_norm(n: nat)
    requires
        n >= 1,
    ensures
        spiral_layer(n) >= 1,
        2 * spiral_layer(n) - 1 <= sqrt_floor(n),
        -spiral_layer(n) <= spiral_coords(n).0 <= spiral_layer(n),
        -spiral_layer(n) <= spiral_coords(n).1 <= spiral_layer(n),
{
    lemma_sqrt_floor_bounds(n);
    lemma_spiral_layer_bounds(n);
    let r = sqrt_floor(n) as int;
    let l = spiral_layer(n);
    vstd::arithmetic::div_mod::lemma_fundamental_div_mod(r - 1, 2);
    assert(2 * l - 1 <= r);
    let pos = n - (2 * l - 1) * (2 * l - 1);
    assert((2 * l + 1) * (2 * l + 1) - (2 * l - 1) * (2 * l - 1) == 8 * l) by (nonlinear_arith);
    lemma_ring_norm(l, pos);
}

/// Integer square root of `n`, by bisection.
fn isqrt(n: usize) -> (r: usize)
    ensures
        r as nat == sqrt_floor(n as nat),
        r * r <= n,
{
    let mut lo: u128 = 0;
    let mut hi: u128 = n as u128 + 1;
    proof {
        assert((n as int) < (n as int + 1) * (n as int + 1)) by (nonlinear_arith)
            requires
                n >= 0,
        ;
    }
    while hi - lo > 1
        invariant
            lo < hi,
            hi <= n as u128 + 1,
            (lo as int) * (lo as int) <= n as int,
            (n as int) < (hi as int) * (hi as int),
        decreases hi - lo,
    {
        let mid: u128 = lo + (hi - lo) / 2;
        proof {
            assert(mid < hi && lo <= mid);
            assert((mid as int) * (mid as int) <= u128::MAX) by (nonlinear_arith)
                requires
                    0 <= mid as int <= 0xffff_ffff_ffff_ffff,
            ;
        }
        if mid * mid <= n as u128 {
            lo = mid;
        } else {
            hi = mid;
        }
    }
    proof {
        assert(lo <= n as u128) by (nonlinear_arith)
            requires
                (lo as int) * (lo as int) <= n as int && lo >= 0,
        ;
        lemma_sqrt_floor_unique(n as nat, lo as nat);
    }
    lo as usize
}

/// The spiral cell for index `n`: `0` sits at the origin, and each later
/// index continues the outward square spiral.
pub fn index_to_spiral_coords(n: usize) -> (r: (isize, isize))
    ensures
        (r.0 as int, r.1 as int) == spiral_coords(n as nat),
{
    if n == 0 {
        return (0, 0);
    }
    let root: usize = isqrt(n);
    proof {
        lemma_sqrt_floor_bounds(n as nat);
        assert(root >= 1) by (nonlinear_arith)
            requires
                n >= 1 && n < (root + 1) * (root + 1) && root >= 0,
        ;
        assert(usize::MAX >= 0xffff_ffff);
        assert(root + 4 <= isize::MAX) by (nonlinear_arith)
            requires
                root * root <= usize::MAX && usize::MAX == 2 * (isize::MAX as int) + 1
                    && isize::MAX >= 100,
        ;
    }
    let layer: usize = (root - 1) / 2 + 1;
    proof {
        lemma_spiral_layer_bounds(n as nat);
        assert(layer as int == spiral_layer(n as nat));
        assert(2 * layer - 1 <= root);
        assert((2 * layer - 1) * (2 * layer - 1) <= root * root) by (nonlinear_arith)
            requires
                0 <= 2 * layer - 1 <= root,
        ;
    }
    proof {
        assert(4 * (root as int) + 4 <= usize::MAX) by (nonlinear_arith)
            requires
                root * root <= usize::MAX && usize::MAX >= 100,
        ;
        assert(8 * (layer as int) <= 4 * (root as int) + 4);
    }
    let layer_start: usize = (2 * layer - 1) * (2 * layer - 1);
    let pos_in_layer: usize = n - layer_start;
    let side_length: usize = 2 * layer;
    proof {
        let l = layer as int;
        assert((2 * l + 1) * (2 * l + 1) - (2 * l - 1) * (2 * l - 1) == 8 * l)
            by (nonlinear_arith);
        assert(pos_in_layer < 4 * side_length);
    }
    let l: isize = layer as isize;
    if pos_in_layer < side_length {
        (l, -l + 1 + pos_in_layer as isize)
    } else if pos_in_layer < 2 * side_length {
        (l - 1 - (pos_in_layer - side_length) as isize, l)
    } else if pos_in_layer < 3 * side_length {
        (-l, l - 1 - (pos_in_layer - 2 * side_length) as isize)
    } else {
        (-l + 1 + (pos_in_layer - 3 * side_length) as isize, -l)
    }
}

} // verus!
