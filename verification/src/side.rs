//! The six face-adjacent directions of a cell and packed subsets of them.

use vstd::prelude::*;

verus! {

/// One of the six face-adjacent unit steps in the three axes.
///
/// `Left`/`Right` move along the x axis, `Up`/`Down` along y,
/// `Forth`/`Back` along z. The declaration order Left, Right, Up, Down,
/// Forth, Back is the canonical order of the sides.
#[derive(Clone, Copy, Debug, Eq, Hash, PartialEq, Structural)]
pub enum Side {
    Left,
    Right,
    Up,
    Down,
    Forth,
    Back,
}

impl Side {
    /// Bit position of this side inside a `Sides` bitfield, following
    /// the canonical order.
    pub open spec fn spec_bit(self) -> u8 {
        match self {
            Side::Left => 0,
            Side::Right => 1,
            Side::Up => 2,
            Side::Down => 3,
            Side::Forth => 4,
            Side::Back => 5,
        }
    }

    /// The side on the other end of the same axis.
    pub open spec fn spec_opposite(self) -> Side {
        match self {
            Side::Left => Side::Right,
            Side::Right => Side::Left,
            Side::Up => Side::Down,
            Side::Down => Side::Up,
            Side::Forth => Side::Back,
            Side::Back => Side::Forth,
        }
    }

    /// Returns the unique opposite side.
    pub fn opposite(self) -> (r: Side)
        ensures
            r == self.spec_opposite(),
    {
        match self {
            Side::Left => Side::Right,
            Side::Right => Side::Left,
            Side::Up => Side::Down,
            Side::Down => Side::Up,
            Side::Forth => Side::Back,
            Side::Back => Side::Forth,
        }
    }

    fn bit(self) -> (b: u8)
        ensures
            b == self.spec_bit(),
    {
        match self {
            Side::Left => 0,
            Side::Right => 1,
            Side::Up => 2,
            Side::Down => 3,
            Side::Forth => 4,
            Side::Back => 5,
        }
    }
}

/// Taking the opposite twice returns to the starting side.
pub proof fn lemma_opposite_involution(s: Side)
    ensures
        s.spec_opposite().spec_opposite() == s,
{
}

/// A subset of the six sides, packed into the low six bits of a byte.
///
/// Bit k holds the side whose `spec_bit` is k. Only the low six bits may
/// ever be set.
#[derive(Clone, Copy, Debug, Eq, Hash, PartialEq, Structural)]
pub struct Sides {
    bits: u8,
}

impl Sides {
    #[verifier::type_invariant]
    spec fn inv(self) -> bool {
        self.bits < 64
    }

    /// Whether `side` is a member of this set.
    pub closed spec fn spec_has(self, side: Side) -> bool {
        self.bits & (1u8 << side.spec_bit()) != 0
    }

    /// The set with no sides.
    pub closed spec fn spec_empty() -> Sides {
        Sides { bits: 0 }
    }

    /// The union of two sets.
    pub closed spec fn spec_union(a: Sides, b: Sides) -> Sides {
        Sides { bits: a.bits | b.bits }
    }

    /// The set with exactly one member.
    pub closed spec fn spec_single(side: Side) -> Sides {
        Sides { bits: 1u8 << side.spec_bit() }
    }

    /// How many of the six sides are members.
    pub open spec fn spec_len(self) -> int {
        (if self.spec_has(Side::Left) { 1int } else { 0 })
        + (if self.spec_has(Side::Right) { 1int } else { 0 })
        + (if self.spec_has(Side::Up) { 1int } else { 0 })
        + (if self.spec_has(Side::Down) { 1int } else { 0 })
        + (if self.spec_has(Side::Forth) { 1int } else { 0 })
        + (if self.spec_has(Side::Back) { 1int } else { 0 })
    }

    /// Returns the set with no sides.
    pub fn empty() -> (r: Sides)
        ensures
            r == Sides::spec_empty(),
            forall|s: Side| !r.spec_has(s),
    {
        proof {
            assert forall|s: Side| !Sides::spec_empty().spec_has(s) by {
                let k = s.spec_bit();
                assert(k <= 5);
                assert(0u8 & (1u8 << k) == 0) by (bit_vector);
            }
        }
        Sides { bits: 0 }
    }

    /// Returns the set of all six sides.
    pub fn all() -> (r: Sides)
        ensures
            forall|s: Side| r.spec_has(s),
    {
        proof {
            let full = (Sides { bits: 63u8 });
            assert forall|s: Side| full.spec_has(s) by {
                let k = s.spec_bit();
                assert(k <= 5 ==> 63u8 & (1u8 << k) != 0) by (bit_vector);
            }
        }
        Sides { bits: 63 }
    }

    /// Returns the set whose only member is `side`.
    pub fn single(side: Side) -> (r: Sides)
        ensures
            r == Sides::spec_single(side),
            forall|s: Side| r.spec_has(s) <==> s == side,
    {
        let b = side.bit();
        assert(1u8 << b < 64) by (bit_vector)
            requires
                b <= 5,
        ;
        let bits = 1u8 << b;
        proof {
            lemma_single_has(side);
            assert((Sides { bits }) == Sides::spec_single(side));
        }
        Sides { bits }
    }

    /// How many sides the set holds.
    pub fn len(self) -> (n: usize)
        ensures
            n == self.spec_len(),
    {
        let mut n: usize = 0;
        if self.contains(Side::Left) {
            n += 1;
        }
        if self.contains(Side::Right) {
            n += 1;
        }
        if self.contains(Side::Up) {
            n += 1;
        }
        if self.contains(Side::Down) {
            n += 1;
        }
        if self.contains(Side::Forth) {
            n += 1;
        }
        if self.contains(Side::Back) {
            n += 1;
        }
        n
    }

    /// Whether the set has no members.
    pub fn is_empty(self) -> (r: bool)
        ensures
            r <==> self == Sides::spec_empty(),
            r <==> forall|s: Side| !self.spec_has(s),
    {
        proof {
            use_type_invariant(self);
            let b = self.bits;
            if b == 0 {
                assert forall|s: Side| !self.spec_has(s) by {
                    let k = s.spec_bit();
                    assert(b == 0 ==> b & (1u8 << k) == 0) by (bit_vector);
                }
            } else {
                assert(b < 64 && b != 0 ==> (b & (1u8 << 0) != 0 || b & (1u8 << 1) != 0 || b & (
                1u8 << 2) != 0 || b & (1u8 << 3) != 0 || b & (1u8 << 4) != 0 || b & (1u8 << 5)
                    != 0)) by (bit_vector);
                if b & (1u8 << 0) != 0 {
                    assert(self.spec_has(Side::Left));
                } else if b & (1u8 << 1) != 0 {
                    assert(self.spec_has(Side::Right));
                } else if b & (1u8 << 2) != 0 {
                    assert(self.spec_has(Side::Up));
                } else if b & (1u8 << 3) != 0 {
                    assert(self.spec_has(Side::Down));
                } else if b & (1u8 << 4) != 0 {
                    assert(self.spec_has(Side::Forth));
                } else {
                    assert(self.spec_has(Side::Back));
                }
            }
        }
        self.bits == 0
    }

    /// Whether `side` is a member of the set.
    pub fn contains(self, side: Side) -> (r: bool)
        ensures
            r == self.spec_has(side),
    {
        self.bits & (1u8 << side.bit()) != 0
    }

    /// Removes `side` from the set; the other members stay.
    pub fn remove(&mut self, side: Side)
        ensures
            forall|s: Side| final(self).spec_has(s) <==> (old(self).spec_has(s) && s != side),
    {
        proof {
            use_type_invariant(*self);
        }
        let b = side.bit();
        let bits = self.bits & !(1u8 << b);
        proof {
            let old_bits = self.bits;
            assert(old_bits < 64 ==> (old_bits & !(1u8 << b)) < 64) by (bit_vector);
            let removed = (Sides { bits });
            let before = (Sides { bits: old_bits });
            assert forall|s: Side| (removed.spec_has(s) <==> (before.spec_has(s) && s != side)) by {
                let k = s.spec_bit();
                lemma_bit_injective(s, side);
                if s == side {
                    assert((old_bits & !(1u8 << b)) & (1u8 << b) == 0) by (bit_vector);
                } else {
                    assert(k != b && k <= 5 && b <= 5 ==> (((old_bits & !(1u8 << b)) & (1u8 << k)
                        != 0) <==> (old_bits & (1u8 << k) != 0))) by (bit_vector);
                }
            }
        }
        self.bits = bits;
    }

    /// Returns the union of the two sets.
    pub fn union(self, other: Sides) -> (r: Sides)
        ensures
            r == Sides::spec_union(self, other),
            forall|s: Side| r.spec_has(s) <==> (self.spec_has(s) || other.spec_has(s)),
    {
        proof {
            use_type_invariant(self);
            use_type_invariant(other);
            let (a, b) = (self.bits, other.bits);
            assert(a < 64 && b < 64 ==> (a | b) < 64) by (bit_vector);
            let joined = (Sides { bits: a | b });
            assert forall|s: Side|
                joined.spec_has(s) <==> (self.spec_has(s) || other.spec_has(s))
            by {
                let k = s.spec_bit();
                assert(((a | b) & (1u8 << k) != 0) <==> ((a & (1u8 << k) != 0) || (b & (1u8 << k)
                    != 0))) by (bit_vector);
            }
        }
        Sides { bits: self.bits | other.bits }
    }

    /// Returns the intersection of the two sets.
    pub fn intersect(self, other: Sides) -> (r: Sides)
        ensures
            forall|s: Side| r.spec_has(s) <==> (self.spec_has(s) && other.spec_has(s)),
    {
        proof {
            use_type_invariant(self);
            let (a, b) = (self.bits, other.bits);
            assert(a < 64 ==> (a & b) < 64) by (bit_vector);
            let met = (Sides { bits: a & b });
            assert forall|s: Side|
                met.spec_has(s) <==> (self.spec_has(s) && other.spec_has(s))
            by {
                let k = s.spec_bit();
                assert(((a & b) & (1u8 << k) != 0) <==> ((a & (1u8 << k) != 0) && (b & (1u8 << k)
                    != 0))) by (bit_vector);
            }
        }
        Sides { bits: self.bits & other.bits }
    }

    /// Returns the complement over the full set of six sides.
    pub fn complement(self) -> (r: Sides)
        ensures
            forall|s: Side| r.spec_has(s) <==> !self.spec_has(s),
    {
        proof {
            use_type_invariant(self);
            let a = self.bits;
            assert(a < 64 ==> (a ^ 63) < 64) by (bit_vector);
            let flipped = (Sides { bits: a ^ 63 });
            assert forall|s: Side| flipped.spec_has(s) <==> !self.spec_has(s) by {
                let k = s.spec_bit();
                assert(k <= 5 && a < 64 ==> (((a ^ 63) & (1u8 << k) != 0) <==> (a & (1u8 << k)
                    == 0))) by (bit_vector);
            }
        }
        Sides { bits: self.bits ^ 63 }
    }

    /// Consumes the set into an iterator that yields the members in
    /// canonical order.
    pub fn into_iter(self) -> (it: IntoIter)
        ensures
            it.spec_rem() == self,
    {
        IntoIter { rem: self }
    }
}

/// Distinct sides sit on distinct bit positions.
proof fn lemma_bit_injective(a: Side, b: Side)
    ensures
        (a.spec_bit() == b.spec_bit()) <==> (a == b),
{
}

proof fn lemma_single_has(side: Side)
    ensures
        forall|s: Side| Sides::spec_single(side).spec_has(s) <==> s == side,
{
    assert forall|s: Side| Sides::spec_single(side).spec_has(s) <==> s == side by {
        let k = s.spec_bit();
        let b = side.spec_bit();
        lemma_bit_injective(s, side);
        assert(k <= 5 && b <= 5 ==> (((1u8 << b) & (1u8 << k) != 0) <==> k == b)) by (bit_vector);
    }
}

/// Union is commutative.
pub proof fn lemma_union_comm(a: Sides, b: Sides)
    ensures
        Sides::spec_union(a, b) == Sides::spec_union(b, a),
{
    let (x, y) = (a.bits, b.bits);
    assert(x | y == y | x) by (bit_vector);
}

/// Union is associative.
pub proof fn lemma_union_assoc(a: Sides, b: Sides, c: Sides)
    ensures
        Sides::spec_union(Sides::spec_union(a, b), c) == Sides::spec_union(
            a,
            Sides::spec_union(b, c),
        ),
{
    let (x, y, z) = (a.bits, b.bits, c.bits);
    assert((x | y) | z == x | (y | z)) by (bit_vector);
}

/// The empty set is the identity of union; in particular the union of
/// the empty set with a single side is that side alone.
pub proof fn lemma_union_identity(a: Sides)
    ensures
        Sides::spec_union(Sides::spec_empty(), a) == a,
        Sides::spec_union(a, Sides::spec_empty()) == a,
{
    let x = a.bits;
    assert(0u8 | x == x && x | 0u8 == x) by (bit_vector);
}

/// Yields the members of a `Sides` in canonical order, each at most once.
pub struct IntoIter {
    rem: Sides,
}

impl IntoIter {
    /// The members not yet yielded.
    pub closed spec fn spec_rem(self) -> Sides {
        self.rem
    }

    /// Yields the remaining member that comes first in canonical order,
    /// removing it from the set, or `None` once the set is exhausted.
    pub fn next(&mut self) -> (r: Option<Side>)
        ensures
            match r {
                Option::None => old(self).spec_rem() == Sides::spec_empty()
                    && final(self).spec_rem() == old(self).spec_rem(),
                Option::Some(side) => old(self).spec_rem().spec_has(side)
                    && (forall|s: Side|
                        s.spec_bit() < side.spec_bit() ==> !old(self).spec_rem().spec_has(s))
                    && (forall|s: Side|
                        final(self).spec_rem().spec_has(s) <==> (old(self).spec_rem().spec_has(s)
                            && s != side)),
            },
    {
        if self.rem.contains(Side::Left) {
            self.rem.remove(Side::Left);
            return Some(Side::Left);
        }
        if self.rem.contains(Side::Right) {
            self.rem.remove(Side::Right);
            return Some(Side::Right);
        }
        if self.rem.contains(Side::Up) {
            self.rem.remove(Side::Up);
            return Some(Side::Up);
        }
        if self.rem.contains(Side::Down) {
            self.rem.remove(Side::Down);
            return Some(Side::Down);
        }
        if self.rem.contains(Side::Forth) {
            self.rem.remove(Side::Forth);
            return Some(Side::Forth);
        }
        if self.rem.contains(Side::Back) {
            self.rem.remove(Side::Back);
            return Some(Side::Back);
        }
        proof {
            use_type_invariant(self.rem);
            let b = self.rem.bits;
            assert(b < 64 && b & (1u8 << 0) == 0 && b & (1u8 << 1) == 0 && b & (1u8 << 2) == 0 && b
                & (1u8 << 3) == 0 && b & (1u8 << 4) == 0 && b & (1u8 << 5) == 0 ==> b == 0)
                by (bit_vector);
        }
        None
    }
}

} // verus!

