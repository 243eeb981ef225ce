use vstd::prelude::*;

verus! {

/// The surface reconstruction algorithms.
#[derive(Debug, Clone, Copy, PartialEq, Eq)]
pub enum ReconstructionAlgorithm {
    Poisson,
    BallPivoting,
    MarchingCubes,
}

/// `r` holds `a`, `b` and `c` in some order.
pub open spec fn is_reordering(r: (usize, usize, usize), a: usize, b: usize, c: usize) -> bool {
    ||| r == (a, b, c)
    ||| r == (a, c, b)
    ||| r == (b, a, c)
    ||| r == (b, c, a)
    ||| r == (c, a, b)
    ||| r == (c, b, a)
}

/// The three indices in ascending order.
pub open spec fn tri_key(a: usize, b: usize, c: usize) -> (usize, usize, usize) {
    let (x, y) = if a <= b {
        (a, b)
    } else {
        (b, a)
    };
    if c <= x {
        (c, x, y)
    } else if c <= y {
        (x, c, y)
    } else {
        (x, y, c)
    }
}

/// The key of a triangle is its corners in ascending order, so it is the
/// same whichever order the corners are given in.
pub proof fn law_tri_key_order_free(a: usize, b: usize, c: usize)
    ensures
        tri_key(a, b, c).0 <= tri_key(a, b, c).1 <= tri_key(a, b, c).2,
        is_reordering(tri_key(a, b, c), a, b, c),
        tri_key(a, b, c) == tri_key(a, c, b),
        tri_key(a, b, c) == tri_key(b, a, c),
        tri_key(a, b, c) == tri_key(b, c, a),
        tri_key(a, b, c) == tri_key(c, a, b),
        tri_key(a, b, c) == tri_key(c, b, a),
{
}

/// The three indices in ascending order: a key for a triangle that does not
/// depend on the order of its corners.
pub fn sort_tri(a: usize, b: usize, c: usize) -> (r: (usize, usize, usize))
    ensures
        r == tri_key(a, b, c),
        r.0 <= r.1 <= r.2,
        is_reordering(r, a, b, c),
{
    let (x, y) = if a <= b {
        (a, b)
    } else {
        (b, a)
    };
    let r = if c <= x {
        (c, x, y)
    } else if c <= y {
        (x, c, y)
    } else {
        (x, y, c)
    };
    r
}

} // verus!
