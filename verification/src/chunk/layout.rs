//! The bijections between in-chunk cell coordinates and flat storage
//! indices: scanline order and a bit-interleaved curve order.

use vstd::arithmetic::div_mod::{
    lemma_div_denominator, lemma_div_pos_is_pos, lemma_fundamental_div_mod,
    lemma_fundamental_div_mod_converse, lemma_mod_division_less_than_divisor,
    lemma_multiply_divide_lt,
};
use vstd::arithmetic::power2::{lemma2_to64, lemma_pow2_unfold, pow2};
use vstd::prelude::*;

use crate::chunk::{in_chunk, VOLUME};

verus! {

/// A bijection between the cells of a chunk and a flat storage index.
///
/// `spec_index` and `spec_point` are mutual inverses: every in-chunk
/// point round-trips through its index, and every index below
/// `spec_size` round-trips through its point.
pub trait Layout {
    /// Number of cells the flat storage needs under this layout: every
    /// index of an in-chunk point lies below it.
    spec fn spec_size() -> int;

    /// The flat index of the in-chunk cell (x, y, z).
    spec fn spec_index(x: int, y: int, z: int) -> int;

    /// The cell coordinates encoded by a flat index.
    spec fn spec_point(i: int) -> (int, int, int);

    /// The storage size is positive and fits the address space.
    proof fn lemma_size()
        ensures
            0 < Self::spec_size() <= 0x1000_0000,
    ;

    /// Returns the number of cells the flat storage needs.
    fn size() -> (n: usize)
        ensures
            n == Self::spec_size(),
    ;

    /// Returns the flat index of an in-chunk cell.
    fn index_of(point: (u32, u32, u32)) -> (i: u32)
        requires
            in_chunk(point.0 as int, point.1 as int, point.2 as int),
        ensures
            i == Self::spec_index(point.0 as int, point.1 as int, point.2 as int),
            i < Self::spec_size(),
    ;

    /// Returns the cell coordinates of a flat index.
    fn point_of(index: u32) -> (p: (u32, u32, u32))
        requires
            index < Self::spec_size(),
        ensures
            (p.0 as int, p.1 as int, p.2 as int) == Self::spec_point(index as int),
    ;

    /// Every in-chunk point returns to itself through its flat index.
    proof fn lemma_point_round_trip(x: int, y: int, z: int)
        requires
            in_chunk(x, y, z),
        ensures
            0 <= Self::spec_index(x, y, z) < Self::spec_size(),
            Self::spec_point(Self::spec_index(x, y, z)) == (x, y, z),
    ;

    /// Every flat index returns to itself through its cell.
    proof fn lemma_index_round_trip(i: int)
        requires
            0 <= i < Self::spec_size(),
        ensures
            Self::spec_index(
                Self::spec_point(i).0,
                Self::spec_point(i).1,
                Self::spec_point(i).2,
            ) == i,
    ;
}

/// Scanline order over an X-by-Y cross-section: x varies fastest, then
/// y, then z.
pub struct Straight<const X: u32, const Y: u32>;

impl<const X: u32, const Y: u32> Straight<X, Y> {
    /// The scanline index: z·X·Y + y·X + x.
    pub open spec fn spec_to_index(x: int, y: int, z: int) -> int {
        z * ((X as int) * (Y as int)) + y * (X as int) + x
    }

    /// The scanline decomposition: (i mod X, (i / X) mod Y, i / (X·Y)).
    pub open spec fn spec_to_point(i: int) -> (int, int, int) {
        (i % (X as int), (i / (X as int)) % (Y as int), (i / (X as int)) / (Y as int))
    }

    /// Returns the scanline index of (x, y, z).
    pub fn to_index(point: (u32, u32, u32)) -> (i: u32)
        requires
            point.0 < X,
            point.1 < Y,
            Self::spec_to_index(point.0 as int, point.1 as int, point.2 as int) <= u32::MAX,
        ensures
            i == Self::spec_to_index(point.0 as int, point.1 as int, point.2 as int),
    {
        let (x, y, z) = point;
        proof {
            let (xi, yi, zi) = (x as int, y as int, z as int);
            let (bx, by) = (X as int, Y as int);
            assert(zi * bx * by == zi * (bx * by)) by (nonlinear_arith);
            assert(yi * bx + xi >= 0 && zi * bx >= 0 && zi * (bx * by) >= 0 && yi * bx >= 0)
                by (nonlinear_arith)
                requires
                    xi >= 0 && yi >= 0 && zi >= 0 && bx >= 0 && by >= 0,
            ;
            assert(zi * bx <= zi * bx * by) by (nonlinear_arith)
                requires
                    zi * bx >= 0 && by >= 1,
            ;
        }
        z * X * Y + y * X + x
    }

    /// Returns the cell coordinates of a scanline index.
    pub fn to_point(index: u32) -> (p: (u32, u32, u32))
        requires
            X > 0,
            Y > 0,
        ensures
            (p.0 as int, p.1 as int, p.2 as int) == Self::spec_to_point(index as int),
    {
        (index % X, index / X % Y, index / X / Y)
    }

    /// Every point with x below X and y below Y round-trips through its
    /// scanline index.
    pub proof fn lemma_point_round_trip(x: int, y: int, z: int)
        requires
            0 <= x < X,
            0 <= y < Y,
            0 <= z,
        ensures
            Self::spec_to_index(x, y, z) >= 0,
            Self::spec_to_point(Self::spec_to_index(x, y, z)) == (x, y, z),
    {
        let (bx, by) = (X as int, Y as int);
        let i = Self::spec_to_index(x, y, z);
        assert(z * (bx * by) + y * bx + x == (z * by + y) * bx + x) by (nonlinear_arith);
        assert(z >= 0 && by >= 1 && y >= 0 ==> z * by + y >= 0) by (nonlinear_arith);
        assert(z * by + y >= 0 && bx >= 1 && x >= 0 ==> (z * by + y) * bx + x >= 0)
            by (nonlinear_arith);
        lemma_fundamental_div_mod_converse(i, bx, z * by + y, x);
        lemma_fundamental_div_mod_converse(z * by + y, by, z, y);
    }

    /// Scanline indices are dense: every index below X·Y·depth decodes
    /// to a cell inside that box.
    pub proof fn lemma_dense(i: int, depth: int)
        requires
            X > 0,
            Y > 0,
            0 <= i < (X as int) * (Y as int) * depth,
        ensures
            0 <= Self::spec_to_point(i).0 < X,
            0 <= Self::spec_to_point(i).1 < Y,
            0 <= Self::spec_to_point(i).2 < depth,
    {
        let (bx, by) = (X as int, Y as int);
        lemma_mod_division_less_than_divisor(i, bx);
        lemma_mod_division_less_than_divisor(i / bx, by);
        lemma_div_pos_is_pos(i, bx);
        lemma_div_pos_is_pos(i / bx, by);
        assert(bx * by * depth == bx * (by * depth)) by (nonlinear_arith);
        lemma_multiply_divide_lt(i, bx, by * depth);
        lemma_multiply_divide_lt(i / bx, by, depth);
    }

    /// Every non-negative index round-trips through its cell.
    pub proof fn lemma_index_round_trip(i: int)
        requires
            0 <= i,
            X > 0,
            Y > 0,
        ensures
            Self::spec_to_index(
                Self::spec_to_point(i).0,
                Self::spec_to_point(i).1,
                Self::spec_to_point(i).2,
            ) == i,
    {
        let (bx, by) = (X as int, Y as int);
        lemma_fundamental_div_mod(i, bx);
        lemma_fundamental_div_mod(i / bx, by);
        let x = i % bx;
        let y = (i / bx) % by;
        let z = (i / bx) / by;
        assert(bx * (by * z + y) == z * (bx * by) + y * bx) by (nonlinear_arith);
        assert(i / bx == by * z + y);
        assert(i == bx * (i / bx) + x);
    }
}

impl Layout for Straight<16, 32> {
    open spec fn spec_size() -> int {
        VOLUME as int
    }

    open spec fn spec_index(x: int, y: int, z: int) -> int {
        Self::spec_to_index(x, y, z)
    }

    open spec fn spec_point(i: int) -> (int, int, int) {
        Self::spec_to_point(i)
    }

    proof fn lemma_size() {
    }

    fn size() -> (n: usize) {
        VOLUME as usize
    }

    fn index_of(point: (u32, u32, u32)) -> (i: u32) {
        Self::to_index(point)
    }

    fn point_of(index: u32) -> (p: (u32, u32, u32)) {
        Self::to_point(index)
    }

    proof fn lemma_point_round_trip(x: int, y: int, z: int) {
        Self::lemma_point_round_trip(x, y, z);
    }

    proof fn lemma_index_round_trip(i: int) {
        Self::lemma_index_round_trip(i);
    }
}

/// Bit-interleaved curve order: bit k of x goes to bit 3k of the index,
/// bit k of y to bit 3k+1, bit k of z to bit 3k+2. Cells that are close
/// in space stay close in the index along all three axes.
pub struct Curve;

/// The interleaved index of (x, y, z): the three low bits are taken off
/// the coordinates, packed into one octal digit, and the rest recurs on
/// the halved coordinates.
pub open spec fn curve_index(x: int, y: int, z: int) -> int
    decreases x + y + z,
    when x >= 0 && y >= 0 && z >= 0
{
    if x <= 0 && y <= 0 && z <= 0 {
        0
    } else {
        x % 2 + 2 * (y % 2) + 4 * (z % 2) + 8 * curve_index(x / 2, y / 2, z / 2)
    }
}

/// The coordinates encoded by an interleaved index: each octal digit of
/// the index contributes one bit to each coordinate.
pub open spec fn curve_point(i: int) -> (int, int, int)
    decreases i,
    when i >= 0
{
    if i <= 0 {
        (0, 0, 0)
    } else {
        let p = curve_point(i / 8);
        (2 * p.0 + i % 2, 2 * p.1 + (i / 2) % 2, 2 * p.2 + (i / 4) % 2)
    }
}

/// The interleaved index of a cell other than the origin is positive.
proof fn lemma_curve_index_pos(x: int, y: int, z: int)
    requires
        x >= 0,
        y >= 0,
        z >= 0,
    ensures
        curve_index(x, y, z) >= 0,
        x + y + z > 0 ==> curve_index(x, y, z) >= 1,
    decreases x + y + z,
{
    if x <= 0 && y <= 0 && z <= 0 {
    } else {
        lemma_curve_index_pos(x / 2, y / 2, z / 2);
        if x % 2 == 0 && y % 2 == 0 && z % 2 == 0 {
            assert(x / 2 + y / 2 + z / 2 > 0);
        }
    }
}

/// Coordinates below 2^k interleave to an index below 2^(3k).
proof fn lemma_curve_index_bound(x: int, y: int, z: int, k: nat)
    requires
        0 <= x < pow2(k),
        0 <= y < pow2(k),
        0 <= z < pow2(k),
    ensures
        0 <= curve_index(x, y, z) < pow2(3 * k),
    decreases k,
{
    if k == 0 {
        assert(pow2(0) == 1) by {
            lemma2_to64();
        }
    } else {
        lemma_pow2_unfold(k);
        lemma_pow2_unfold((3 * k) as nat);
        lemma_pow2_unfold((3 * k - 1) as nat);
        lemma_pow2_unfold((3 * k - 2) as nat);
        lemma_curve_index_bound(x / 2, y / 2, z / 2, (k - 1) as nat);
        let rec = curve_index(x / 2, y / 2, z / 2);
        assert(rec < pow2((3 * k - 3) as nat));
        if x + y + z > 0 {
            assert(curve_index(x, y, z) == x % 2 + 2 * (y % 2) + 4 * (z % 2) + 8 * rec);
            assert(8 * rec <= 8 * (pow2((3 * k - 3) as nat) - 1)) by (nonlinear_arith)
                requires
                    rec <= pow2((3 * k - 3) as nat) - 1,
            ;
        }
    }
}

/// One octal digit splits an index into its three low coordinate bits
/// and the rest.
proof fn lemma_octal_digit(i: int)
    requires
        i >= 0,
    ensures
        i % 8 == i % 2 + 2 * ((i / 2) % 2) + 4 * ((i / 4) % 2),
        i / 2 % 2 == (i % 8) / 2 % 2,
        i / 4 % 2 == (i % 8) / 4 % 2,
        (i / 4) / 2 == i / 8,
        (i / 2) / 2 == i / 4,
    decreases i,
{
    lemma_fundamental_div_mod(i, 8);
    let q = i / 8;
    let r = i % 8;
    lemma_fundamental_div_mod(r, 2);
    lemma_fundamental_div_mod(r, 4);
    assert((4 * q + r / 2) * 2 + r % 2 == 8 * q + 2 * (r / 2) + r % 2);
    lemma_fundamental_div_mod_converse(i, 2, 4 * q + r / 2, r % 2);
    lemma_fundamental_div_mod_converse(i, 4, 2 * q + r / 4, r % 4);
    lemma_fundamental_div_mod_converse(4 * q + r / 2, 2, 2 * q + (r / 2) / 2, (r / 2) % 2);
    lemma_fundamental_div_mod_converse(2 * q + r / 4, 2, q + ((r / 4) / 2), (r / 4) % 2);
    lemma_div_denominator(i, 4, 2);
    lemma_div_denominator(i, 2, 2);
    if r == 0 {
    } else if r == 1 {
    } else if r == 2 {
    } else if r == 3 {
    } else if r == 4 {
    } else if r == 5 {
    } else if r == 6 {
    } else {
        assert(r == 7);
    }
}

/// Every cell with non-negative coordinates returns to itself through
/// its interleaved index.
proof fn lemma_curve_point_round_trip(x: int, y: int, z: int)
    requires
        x >= 0,
        y >= 0,
        z >= 0,
    ensures
        curve_point(curve_index(x, y, z)) == (x, y, z),
    decreases x + y + z,
{
    if x <= 0 && y <= 0 && z <= 0 {
    } else {
        lemma_curve_point_round_trip(x / 2, y / 2, z / 2);
        lemma_curve_index_pos(x, y, z);
        let m = curve_index(x / 2, y / 2, z / 2);
        let b = x % 2 + 2 * (y % 2) + 4 * (z % 2);
        let i = curve_index(x, y, z);
        assert(i == b + 8 * m);
        lemma_octal_digit(i);
        assert(i % 8 == b && i / 8 == m) by {
            lemma_fundamental_div_mod_converse(i, 8, m, b);
        }
        assert(i % 2 == (i % 8) % 2) by {
            lemma_octal_digit(i % 8);
            lemma_fundamental_div_mod_converse(i, 2, 4 * (i / 8) + (i % 8) / 2, (i % 8) % 2);
            lemma_fundamental_div_mod(i % 8, 2);
            lemma_fundamental_div_mod(i, 8);
        }
        assert(b % 2 == x % 2 && b / 2 % 2 == y % 2 && b / 4 % 2 == z % 2);
        lemma_fundamental_div_mod(x, 2);
        lemma_fundamental_div_mod(y, 2);
        lemma_fundamental_div_mod(z, 2);
    }
}

/// The coordinates of an interleaved index are non-negative.
proof fn lemma_curve_point_nonneg(i: int)
    requires
        i >= 0,
    ensures
        curve_point(i).0 >= 0,
        curve_point(i).1 >= 0,
        curve_point(i).2 >= 0,
    decreases i,
{
    if i > 0 {
        lemma_curve_point_nonneg(i / 8);
    }
}

/// Every non-negative index returns to itself through its cell.
proof fn lemma_curve_index_round_trip(i: int)
    requires
        i >= 0,
    ensures
        curve_index(curve_point(i).0, curve_point(i).1, curve_point(i).2) == i,
    decreases i,
{
    if i <= 0 {
    } else {
        lemma_curve_index_round_trip(i / 8);
        lemma_curve_point_nonneg(i / 8);
        let p = curve_point(i / 8);
        let (a, b, c) = (p.0, p.1, p.2);
        lemma_octal_digit(i);
        let x = 2 * a + i % 2;
        let y = 2 * b + (i / 2) % 2;
        let z = 2 * c + (i / 4) % 2;
        assert(curve_point(i) == (x, y, z));
        lemma_fundamental_div_mod_converse(x, 2, a, i % 2);
        lemma_fundamental_div_mod_converse(y, 2, b, (i / 2) % 2);
        lemma_fundamental_div_mod_converse(z, 2, c, (i / 4) % 2);
        if x == 0 && y == 0 && z == 0 {
            lemma_fundamental_div_mod(i, 8);
        } else {
            assert(curve_index(x, y, z) == x % 2 + 2 * (y % 2) + 4 * (z % 2) + 8 * curve_index(
                x / 2,
                y / 2,
                z / 2,
            ));
            lemma_fundamental_div_mod(i, 8);
        }
    }
}

impl Curve {
    /// Returns the interleaved index of (x, y, z). The coordinates must
    /// fit the 8-bit coordinate domain of a chunk.
    pub fn to_index(point: (u32, u32, u32)) -> (r: u32)
        requires
            point.0 < 256,
            point.1 < 256,
            point.2 < 256,
        ensures
            r == curve_index(point.0 as int, point.1 as int, point.2 as int),
            r < 0x100_0000,
    {
        proof {
            lemma2_to64();
            lemma_curve_index_bound(point.0 as int, point.1 as int, point.2 as int, 8);
        }
        let ghost total = curve_index(point.0 as int, point.1 as int, point.2 as int);
        let (mut x, mut y, mut z) = point;
        let mut index: u32 = 0;
        let mut mult: u32 = 1;
        while x != 0 || y != 0 || z != 0
            invariant
                x < 256,
                y < 256,
                z < 256,
                1 <= mult,
                index < mult,
                0 <= total < 0x100_0000,
                index + curve_index(x as int, y as int, z as int) * mult == total,
            decreases x + y + z,
        {
            let bits = x % 2 + (y % 2) * 2 + (z % 2) * 4;
            proof {
                let (xi, yi, zi) = (x as int, y as int, z as int);
                let cur = curve_index(xi, yi, zi);
                let rec = curve_index(xi / 2, yi / 2, zi / 2);
                lemma_curve_index_pos(xi, yi, zi);
                lemma_curve_index_pos(xi / 2, yi / 2, zi / 2);
                assert(cur == bits + 8 * rec);
                assert(mult <= cur * mult && bits * mult <= cur * mult && index + cur * mult
                    == total && rec * (8 * mult) + bits * mult == 8 * rec * mult + bits * mult
                    && 8 * rec * mult + bits * mult == cur * mult) by (nonlinear_arith)
                    requires
                        cur >= 1,
                        mult >= 1,
                        0 <= bits <= cur,
                        cur == bits + 8 * rec,
                        rec >= 0,
                        index + cur * mult == total,
                ;
                assert(index + bits * mult < 8 * mult) by (nonlinear_arith)
                    requires
                        index < mult,
                        0 <= bits <= 7,
                        mult >= 1,
                ;
            }
            index = index + bits * mult;
            mult = mult * 8;
            x = x / 2;
            y = y / 2;
            z = z / 2;
        }
        index
    }

    /// Returns the cell coordinates of an interleaved index.
    pub fn to_point(index: u32) -> (p: (u32, u32, u32))
        requires
            index < 0x100_0000,
        ensures
            (p.0 as int, p.1 as int, p.2 as int) == curve_point(index as int),
    {
        let ghost t = curve_point(index as int);
        let mut i = index;
        let mut x: u32 = 0;
        let mut y: u32 = 0;
        let mut z: u32 = 0;
        let mut mult: u32 = 1;
        while i != 0
            invariant
                1 <= mult,
                x < mult,
                y < mult,
                z < mult,
                (i as int) * (mult as int) * (mult as int) * (mult as int) < 0x100_0000,
                t.0 == x + curve_point(i as int).0 * mult,
                t.1 == y + curve_point(i as int).1 * mult,
                t.2 == z + curve_point(i as int).2 * mult,
            decreases i,
        {
            proof {
                let ii = i as int;
                let m = mult as int;
                lemma_curve_point_nonneg(ii);
                lemma_curve_point_nonneg(ii / 8);
                let p = curve_point(ii / 8);
                assert(curve_point(ii) == (
                    2 * p.0 + ii % 2,
                    2 * p.1 + (ii / 2) % 2,
                    2 * p.2 + (ii / 4) % 2,
                ));
                assert(mult < 256) by (nonlinear_arith)
                    requires
                        ii >= 1,
                        m == mult,
                        ii * m * m * m < 0x100_0000,
                        m >= 1,
                ;
                assert((ii / 8) * (2 * m) * (2 * m) * (2 * m) <= ii * m * m * m)
                    by (nonlinear_arith)
                    requires
                        ii >= 1,
                        m >= 1,
                ;
                assert((2 * p.0 + ii % 2) * m == p.0 * (2 * m) + (ii % 2) * m && (2 * p.1 + (ii
                    / 2) % 2) * m == p.1 * (2 * m) + ((ii / 2) % 2) * m && (2 * p.2 + (ii / 4) % 2)
                    * m == p.2 * (2 * m) + ((ii / 4) % 2) * m) by (nonlinear_arith);
                assert((ii % 2) * m <= m && ((ii / 2) % 2) * m <= m && ((ii / 4) % 2) * m <= m)
                    by (nonlinear_arith)
                    requires
                        m >= 1,
                ;
            }
            x = x + (i % 2) * mult;
            y = y + (i / 2 % 2) * mult;
            z = z + (i / 4 % 2) * mult;
            mult = mult * 2;
            i = i / 8;
        }
        (x, y, z)
    }
}

impl Layout for Curve {
    open spec fn spec_size() -> int {
        0x8000
    }

    open spec fn spec_index(x: int, y: int, z: int) -> int {
        curve_index(x, y, z)
    }

    open spec fn spec_point(i: int) -> (int, int, int) {
        curve_point(i)
    }

    proof fn lemma_size() {
    }

    fn size() -> (n: usize) {
        0x8000
    }

    fn index_of(point: (u32, u32, u32)) -> (i: u32) {
        proof {
            lemma2_to64();
            lemma_curve_index_bound(point.0 as int, point.1 as int, point.2 as int, 5);
        }
        Curve::to_index(point)
    }

    fn point_of(index: u32) -> (p: (u32, u32, u32)) {
        Curve::to_point(index)
    }

    proof fn lemma_point_round_trip(x: int, y: int, z: int) {
        lemma2_to64();
        lemma_curve_index_bound(x, y, z, 5);
        lemma_curve_point_round_trip(x, y, z);
    }

    proof fn lemma_index_round_trip(i: int) {
        lemma_curve_index_round_trip(i);
    }
}

} // verus!
