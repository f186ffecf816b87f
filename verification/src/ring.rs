//! A ring of five or six atoms, each atom held as whatever the caller
//! keeps of it: a position, an elevation, a name. The atoms are counted
//! around the ring, so the atom after the last is the first again.

use vstd::prelude::*;
use crate::formalism::{MemberedRing, RingError};
use crate::sixring::{closing_side, flap_dihedral};

verus! {

/// The atoms of a five- or six-membered ring, in their order around it.
#[derive(Debug, PartialEq, Eq)]
pub struct Ring<T> {
    atoms: Vec<T>,
}

impl<T> View for Ring<T> {
    type V = Seq<T>;

    closed spec fn view(&self) -> Seq<T> {
        self.atoms@
    }
}

impl<T> Ring<T> {
    /// A ring has five atoms or six.
    #[verifier::type_invariant]
    spec fn has_ring_size(self) -> bool {
        self.atoms@.len() == 5 || self.atoms@.len() == 6
    }

    /// The atom `steps` places after atom `j` around the ring.
    pub open spec fn around(self, j: int, steps: int) -> T {
        self@[(j + steps) % (self@.len() as int)]
    }
}

impl<T: Copy> Ring<T> {
    /// The ring of the given atoms; any number of atoms but five and six is
    /// refused.
    pub fn new(atoms: Vec<T>) -> (r: Result<Ring<T>, RingError>)
        ensures
            match r {
                Ok(ring) => ring@ == atoms@ && (atoms@.len() == 5 || atoms@.len() == 6),
                Err(RingError::NotARing(n)) => n == atoms@.len() && n != 5 && n != 6,
                Err(_) => false,
            },
    {
        match MemberedRing::from_size(atoms.len()) {
            Ok(_) => Ok(Ring { atoms }),
            Err(e) => Err(e),
        }
    }

    /// The size of the ring.
    pub fn size(&self) -> (s: MemberedRing)
        ensures
            s.atoms() == self@.len(),
    {
        proof {
            use_type_invariant(self);
        }
        if self.atoms.len() == 5 {
            MemberedRing::Five
        } else {
            MemberedRing::Six
        }
    }

    /// The atoms of the ring, in their order.
    pub fn atoms(&self) -> (atoms: &Vec<T>)
        ensures
            atoms@ == self@,
    {
        &self.atoms
    }

    /// Atom `j` of the ring.
    pub fn atom(&self, j: usize) -> (a: T)
        ensures
            a == self.around(j as int, 0),
    {
        proof {
            use_type_invariant(self);
        }
        self.atoms[j % self.atoms.len()]
    }

    /// The atom `steps` places after atom `j`.
    fn after(&self, j: usize, steps: usize) -> (a: T)
        requires
            steps < 5,
        ensures
            a == self.around(j as int, steps as int),
    {
        proof {
            use_type_invariant(self);
        }
        if self.atoms.len() == 5 {
            self.atoms[(j % 5 + steps) % 5]
        } else {
            self.atoms[(j % 6 + steps) % 6]
        }
    }

    /// The three atoms of bond angle `j`: atom `j` and the two after it.
    pub fn angle(&self, j: usize) -> (t: (T, T, T))
        ensures
            t.0 == self.around(j as int, 0),
            t.1 == self.around(j as int, 1),
            t.2 == self.around(j as int, 2),
    {
        (self.after(j, 0), self.after(j, 1), self.after(j, 2))
    }

    /// The four atoms of the endocyclic torsion angle `m`: four atoms in a
    /// row, the first of them the atom after atom `m`. In a five-membered
    /// ring they are all atoms but atom `m`.
    pub fn torsion(&self, m: usize) -> (t: (T, T, T, T))
        ensures
            t.0 == self.around(m as int, 1),
            t.1 == self.around(m as int, 2),
            t.2 == self.around(m as int, 3),
            t.3 == self.around(m as int, 4),
    {
        (self.after(m, 1), self.after(m, 2), self.after(m, 3), self.after(m, 4))
    }

    /// The three atoms of side `k` of the triangle that closes a
    /// six-membered ring: the two ends of the side and the corner between
    /// them. `None` for a five-membered ring.
    pub fn closing_angle(&self, k: usize) -> (r: Option<(T, T, T)>)
        ensures
            self@.len() == 6 ==> r == Some(
                (self@[2 * (k % 3)], self@[2 * (k % 3) + 1], self@[2 * ((k + 1) % 3)]),
            ),
            self@.len() != 6 ==> r.is_none(),
    {
        proof {
            use_type_invariant(self);
        }
        if self.atoms.len() != 6 {
            return None;
        }
        let side = closing_side(k);
        Some((self.atoms[side.i], self.atoms[side.j], self.atoms[side.k]))
    }

    /// The four atoms of the dihedral that measures how far the corner of
    /// side `k` of the closing triangle of a six-membered ring is folded out
    /// of the triangle's plane: the triangle's third atom, the two ends of
    /// the side, and the corner. `None` for a five-membered ring.
    pub fn flap(&self, k: usize) -> (r: Option<(T, T, T, T)>)
        ensures
            self@.len() == 6 ==> r == Some(
                (
                    self@[2 * ((k + 2) % 3)],
                    self@[2 * (k % 3)],
                    self@[2 * ((k + 1) % 3)],
                    self@[2 * (k % 3) + 1],
                ),
            ),
            self@.len() != 6 ==> r.is_none(),
    {
        proof {
            use_type_invariant(self);
        }
        if self.atoms.len() != 6 {
            return None;
        }
        let (a, b, c, d) = flap_dihedral(k);
        Some((self.atoms[a], self.atoms[b], self.atoms[c], self.atoms[d]))
    }
}

/// The four atoms of a torsion angle of a five-membered ring are four
/// different atoms, and none of them is atom `m`: the angle leaves out the
/// one atom that it is named after.
pub proof fn lemma_torsion_leaves_one_out<T>(ring: Ring<T>, m: int, a: int, b: int)
    requires
        ring@.len() == 5,
        0 <= m < 5,
        1 <= a <= 4,
        1 <= b <= 4,
        a != b,
    ensures
        (m + a) % 5 != (m + b) % 5,
        (m + a) % 5 != m,
        ring.around(m, a) == ring@[(m + a) % 5],
{
}

} // verus!
