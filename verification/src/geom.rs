//! Tile coordinates on a map that wraps around in the x direction.
use vstd::prelude::*;

verus! {

/// Position of a tile: x grows eastward, y northward.
#[derive(Clone, Copy, PartialEq, Eq, Structural, Hash, Debug)]
pub struct Coords(pub i32, pub i32);

pub open spec fn spec_abs(a: int) -> int {
    if a < 0 {
        -a
    } else {
        a
    }
}

/// Chebyshev distance: the number of king moves from one tile to the other.
pub open spec fn spec_cdistance(a: Coords, b: Coords) -> int {
    let dx = spec_abs(a.0 - b.0);
    let dy = spec_abs(a.1 - b.1);
    if dx >= dy {
        dx
    } else {
        dy
    }
}

pub open spec fn spec_sign(a: int) -> int {
    if a > 0 {
        1
    } else if a < 0 {
        -1
    } else {
        0
    }
}

/// The copy of `dest` nearest to `p` among `dest` and its copies one map
/// width east and west; the first of them on a tie.
pub open spec fn spec_nearest_copy(p: Coords, dest: Coords, w: int) -> Coords {
    let c0 = dest;
    let c1 = Coords((dest.0 + w) as i32, dest.1);
    let c2 = Coords((dest.0 - w) as i32, dest.1);
    let d0 = spec_cdistance(c0, p);
    let d1 = spec_cdistance(c1, p);
    let d2 = spec_cdistance(c2, p);
    if d0 <= d1 && d0 <= d2 {
        c0
    } else if d1 <= d2 {
        c1
    } else {
        c2
    }
}

/// One step from `p` toward the nearest copy of `dest` on a map of width `w`.
pub open spec fn spec_direction(p: Coords, dest: Coords, w: int) -> Coords {
    let d = spec_nearest_copy(p, dest, w);
    Coords(spec_sign(d.0 - p.0) as i32, spec_sign(d.1 - p.1) as i32)
}

impl Coords {
    pub fn new(x: i32, y: i32) -> (c: Coords)
        ensures
            c == Coords(x, y),
    {
        Coords(x, y)
    }

    /// Chebyshev distance to `other`.
    pub fn cdistance(self, other: Coords) -> (r: i32)
        requires
            spec_abs(self.0 - other.0) <= i32::MAX,
            spec_abs(self.1 - other.1) <= i32::MAX,
        ensures
            r == spec_cdistance(self, other),
    {
        let dx = if self.0 >= other.0 {
            self.0 - other.0
        } else {
            other.0 - self.0
        };
        let dy = if self.1 >= other.1 {
            self.1 - other.1
        } else {
            other.1 - self.1
        };
        if dx >= dy {
            dx
        } else {
            dy
        }
    }
}

/// The unit step from `p` toward `dest` on a map of width `w` that wraps
/// around in x; (0, 0) when `p` is `dest`.
///
/// The width is taken as an `i32`, as the cast `w as i32` gives it; the
/// requirements are those under which no step overflows.
pub fn direction(p: Coords, dest: Coords, w: u32) -> (r: Coords)
    requires
        (w as i32) > i32::MIN,
        i32::MIN <= dest.0 + (w as i32) <= i32::MAX,
        i32::MIN <= dest.0 - (w as i32) <= i32::MAX,
        spec_abs(dest.0 - p.0) <= i32::MAX,
        spec_abs(dest.0 + (w as i32) - p.0) <= i32::MAX,
        spec_abs(dest.0 - (w as i32) - p.0) <= i32::MAX,
        spec_abs(dest.1 - p.1) <= i32::MAX,
    ensures
        r == spec_direction(p, dest, (w as i32) as int),
{
    let w = w as i32;
    let c0 = dest;
    let c1 = Coords(dest.0 + w, dest.1);
    let c2 = Coords(dest.0 - w, dest.1);
    let d0 = c0.cdistance(p);
    let d1 = c1.cdistance(p);
    let d2 = c2.cdistance(p);
    let nearest = if d0 <= d1 && d0 <= d2 {
        c0
    } else if d1 <= d2 {
        c1
    } else {
        c2
    };
    let dx = nearest.0 - p.0;
    let dy = nearest.1 - p.1;
    Coords(
        if dx > 0 {
            1
        } else if dx < 0 {
            -1
        } else {
            0
        },
        if dy > 0 {
            1
        } else if dy < 0 {
            -1
        } else {
            0
        },
    )
}

/// The x coordinate brought back onto a map of width `w`.
pub open spec fn spec_rotate_x(x: int, w: int) -> int {
    if x < 0 {
        x + (-x / w + 1) * w
    } else if x >= w {
        x - (x / w) * w
    } else {
        x
    }
}

/// A position brought back into x range on a map of width `size.0` that
/// wraps around in x. The result is on the map, except that a negative
/// multiple of the width gives the width itself, one column past the east
/// edge (see `law_rotation_x`).
pub fn coord_rotation_x(size: (u32, u32), p: Coords) -> (r: Coords)
    requires
        0 < size.0 <= i32::MAX,
        p.0 > i32::MIN,
        p.0 < 0 ==> ((-p.0) as int / size.0 as int + 1) * size.0 as int <= i32::MAX,
    ensures
        r == Coords(spec_rotate_x(p.0 as int, size.0 as int) as i32, p.1),
{
    let w = size.0 as i32;
    let new_x = if p.0 < 0 {
        let q: i32 = (-p.0) / w;
        proof {
            let ghost nx: int = -(p.0 as int);
            let ghost wi: int = w as int;
            assert((nx / wi) * wi <= nx && 0 <= (nx / wi) * wi && (nx / wi + 1) * wi == (nx / wi) * wi + wi) by (nonlinear_arith)
                requires
                    nx >= 0,
                    wi > 0,
            ;
            assert(wi == size.0 as int);
            assert(q as int == nx / wi);
            assert((q + 1) * wi <= i32::MAX);
            assert(0 <= (q + 1) * wi && q + 1 <= (q + 1) * wi) by (nonlinear_arith)
                requires
                    q >= 0,
                    wi > 0,
            ;
        }
        p.0 + (q + 1) * w
    } else if p.0 >= w {
        proof {
            let ghost xi: int = p.0 as int;
            let ghost wi: int = w as int;
            assert((xi / wi) * wi <= xi && 0 <= (xi / wi) * wi) by (nonlinear_arith)
                requires
                    xi >= 0,
                    wi > 0,
            ;
        }
        p.0 - (p.0 / w) * w
    } else {
        p.0
    };
    Coords(new_x, p.1)
}

/// The rotated x lies on the map, one past its east edge only for a negative
/// multiple of the width, and it shows the same column.
pub proof fn law_rotation_x(x: int, w: int)
    requires
        w > 0,
    ensures
        0 <= spec_rotate_x(x, w) <= w,
        spec_rotate_x(x, w) == w <==> (x < 0 && x % w == 0),
        spec_rotate_x(x, w) % w == x % w,
{
    if x < 0 {
        let q = -x / w;
        let r = -x % w;
        vstd::arithmetic::div_mod::lemma_fundamental_div_mod(-x, w);
        vstd::arithmetic::div_mod::lemma_mod_pos_bound(-x, w);
        assert(spec_rotate_x(x, w) == w - r) by (nonlinear_arith)
            requires
                -x == w * q + r,
                spec_rotate_x(x, w) == x + (q + 1) * w,
        ;
        if r == 0 {
            assert(x == (-q) * w + 0) by (nonlinear_arith)
                requires
                    -x == w * q + r,
                    r == 0,
            ;
            vstd::arithmetic::div_mod::lemma_fundamental_div_mod_converse(x, w, -q, 0);
            vstd::arithmetic::div_mod::lemma_mod_self_0(w);
        } else {
            assert(x == (-(q + 1)) * w + (w - r)) by (nonlinear_arith)
                requires
                    -x == w * q + r,
            ;
            vstd::arithmetic::div_mod::lemma_fundamental_div_mod_converse(x, w, -(q + 1), w - r);
            vstd::arithmetic::div_mod::lemma_small_mod((w - r) as nat, w as nat);
        }
    } else if x >= w {
        let q = x / w;
        vstd::arithmetic::div_mod::lemma_fundamental_div_mod(x, w);
        vstd::arithmetic::div_mod::lemma_mod_pos_bound(x, w);
        assert(spec_rotate_x(x, w) == x % w) by (nonlinear_arith)
            requires
                x == w * q + x % w,
                spec_rotate_x(x, w) == x - q * w,
        ;
        vstd::arithmetic::div_mod::lemma_mod_twice(x, w);
    } else {
        vstd::arithmetic::div_mod::lemma_small_mod(x as nat, w as nat);
    }
}

/// Which piece of a tile corner to draw, from whether the tile beside it in
/// x, the tile beside it in y and the diagonal tile hold the same layer.
pub fn corner_idx(a: bool, b: bool, c: bool) -> (r: usize)
    ensures
        r == (if a && b && c {
            0usize
        } else if a && !b {
            1usize
        } else if !a && b {
            2usize
        } else if !a && !b {
            3usize
        } else {
            4usize
        }),
{
    match (a, b, c) {
        (true, true, true) => 0,
        (true, false, _) => 1,
        (false, true, _) => 2,
        (false, false, _) => 3,
        (true, true, false) => 4,
    }
}

} // verus!
