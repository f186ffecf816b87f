//! The six-membered ring as a cycle: the neighbours of an atom, the atoms of
//! a bond angle, the triangle that closes the ring, and the sign that
//! alternates around it. Atoms are counted around the ring, so atom 6 is
//! atom 0 again.

use vstd::prelude::*;
use vstd::arithmetic::power::pow;

verus! {

/// Number of atoms, bonds and bond angles of the ring.
pub const Z_SIZE: usize = 6;

/// The atom `steps` places after atom `j` around the ring.
pub open spec fn around(j: int, steps: int) -> int {
    (j + steps) % 6
}

/// The atom `steps` places after atom `j` around the ring.
pub fn neighbour(j: usize, steps: usize) -> (r: usize)
    ensures
        r == around(j as int, steps as int),
        r < Z_SIZE,
{
    ((j % Z_SIZE) + (steps % Z_SIZE)) % Z_SIZE
}

/// Going around the ring in two legs is going around it in one.
pub proof fn lemma_around_adds(j: int, a: int, b: int)
    requires
        0 <= j,
        0 <= a,
        0 <= b,
    ensures
        around(around(j, a), b) == around(j, a + b),
{
}

/// Six steps lead back to the atom they started from, and fewer do not.
pub proof fn lemma_around_closes(j: int, steps: int)
    requires
        0 <= j < 6,
        0 < steps < 6,
    ensures
        around(j, 6) == j,
        around(j, steps) != j,
{
}

/// The atoms of one bond angle. Bond `b` of the ring joins atom `b` to the
/// atom after it, so the two bonds that meet in the angle are bond `i` and
/// bond `j`.
#[derive(Clone, Copy, Debug, PartialEq, Eq, Structural)]
pub struct BondAngle {
    /// The atom before the corner.
    pub i: usize,
    /// The corner.
    pub j: usize,
    /// The atom after the corner.
    pub k: usize,
}

/// Bond angle `j` of the ring: it lies between atom `j` and the two atoms
/// after it.
pub fn bond_angle(j: usize) -> (t: BondAngle)
    ensures
        t.i == around(j as int, 0),
        t.j == around(j as int, 1),
        t.k == around(j as int, 2),
{
    BondAngle { i: neighbour(j, 0), j: neighbour(j, 1), k: neighbour(j, 2) }
}

/// Side `k` of the triangle that closes the ring, the sides counted around
/// the triangle. The triangle joins every second atom, and each side spans
/// the bond angle between its two ends: it starts where the side before it
/// ends.
pub fn closing_side(k: usize) -> (t: BondAngle)
    ensures
        t.i == 2 * (k % 3),
        t.j == 2 * (k % 3) + 1,
        t.k == 2 * ((k + 1) % 3),
{
    bond_angle(2 * (k % 3))
}

/// The four atoms of the dihedral that measures how far the corner of side
/// `k` of the closing triangle is folded out of the triangle's plane: the
/// triangle's third atom, the two ends of the side, and the corner.
pub fn flap_dihedral(k: usize) -> (t: (usize, usize, usize, usize))
    ensures
        t.0 == 2 * ((k + 2) % 3),
        t.1 == 2 * (k % 3),
        t.2 == 2 * ((k + 1) % 3),
        t.3 == 2 * (k % 3) + 1,
{
    let side = closing_side(k);
    (neighbour(side.i, 4), side.i, side.k, side.j)
}

/// Each bond of the ring lies under one side of the closing triangle, as
/// its first bond or its second.
pub proof fn lemma_closing_sides_cover(bond: int)
    requires
        0 <= bond < 6,
    ensures
        0 <= bond / 2 < 3,
        bond == 2 * (bond / 2) || bond == 2 * (bond / 2) + 1,
{
}

/// The sign of atom `j`: plus for the even atoms, minus for the odd ones.
pub open spec fn sign_of(j: int) -> int {
    if j % 2 == 0 {
        1
    } else {
        -1
    }
}

/// The sign of atom `j`, that is -1 to the power `j`.
pub fn alternating_sign(j: usize) -> (s: i8)
    ensures
        s == sign_of(j as int),
{
    if j % 2 == 0 {
        1
    } else {
        -1
    }
}

/// The sign of atom `j` is -1 to the power `j`.
pub proof fn lemma_sign_is_power(j: nat)
    ensures
        sign_of(j as int) == pow(-1, j),
    decreases j,
{
    reveal(pow);
    if j > 0 {
        lemma_sign_is_power((j - 1) as nat);
    }
}

/// The signs of the six atoms of the ring cancel, as do those of any atom
/// and the atom after it around the ring.
pub proof fn lemma_signs_cancel(j: int)
    requires
        0 <= j,
    ensures
        sign_of(0) + sign_of(1) + sign_of(2) + sign_of(3) + sign_of(4) + sign_of(5) == 0,
        sign_of(j) + sign_of(around(j, 1)) == 0,
{
}

} // verus!
