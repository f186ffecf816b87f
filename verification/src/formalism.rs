//! The rings that a puckering formalism describes, and how their atoms are
//! picked out of a structure.

use vstd::prelude::*;
use crate::ring::Ring;
use crate::search_atomname::{all_known, first_unknown, indices_of_names, positions_of, FindString};

verus! {

/// The size of a ring that has puckering coordinates: five or six atoms.
#[derive(Clone, Copy, Debug, PartialEq, Eq, Structural)]
pub enum MemberedRing {
    Five,
    Six,
}

/// Why no ring could be picked.
#[derive(Clone, Copy, Debug, PartialEq, Eq, Structural)]
pub enum RingError {
    /// The queried name at this position of the query names no atom.
    UnknownAtom(usize),
    /// The index at this position of the query is past the last atom.
    NoSuchAtom(usize),
    /// This many atoms were queried: neither five nor six.
    NotARing(usize),
    /// A ring of one size was queried where the other was asked for.
    WrongRing { expected: MemberedRing, found: MemberedRing },
    /// Fewer atoms were queried than the ring asked for has.
    TooFewAtoms { expected: MemberedRing, given: usize },
}

impl MemberedRing {
    /// Number of atoms of the ring.
    pub open spec fn atoms(self) -> nat {
        match self {
            MemberedRing::Five => 5,
            MemberedRing::Six => 6,
        }
    }

    /// Number of atoms of the ring.
    pub fn size(&self) -> (n: usize)
        ensures
            n == self.atoms(),
    {
        match self {
            MemberedRing::Five => 5,
            MemberedRing::Six => 6,
        }
    }

    /// The ring of `n` atoms; any `n` but five and six is refused.
    pub fn from_size(n: usize) -> (r: Result<MemberedRing, RingError>)
        ensures
            n == 5 ==> r == Ok::<MemberedRing, RingError>(MemberedRing::Five),
            n == 6 ==> r == Ok::<MemberedRing, RingError>(MemberedRing::Six),
            n != 5 && n != 6 ==> r == Err::<MemberedRing, RingError>(RingError::NotARing(n)),
    {
        if n == 5 {
            Ok(MemberedRing::Five)
        } else if n == 6 {
            Ok(MemberedRing::Six)
        } else {
            Err(RingError::NotARing(n))
        }
    }

    /// Whether the ring's descriptor has the polar angle theta beside the
    /// amplitude and the phase angle: that of a six-membered ring has, that
    /// of a five-membered ring never.
    pub fn has_theta(&self) -> (b: bool)
        ensures
            b == (*self == MemberedRing::Six),
    {
        match self {
            MemberedRing::Five => false,
            MemberedRing::Six => true,
        }
    }
}

/// The atoms at `indices`, in the order of the query.
pub open spec fn picked<T>(atoms: Seq<T>, indices: Seq<usize>) -> Seq<T> {
    Seq::new(indices.len(), |k: int| atoms[indices[k] as int])
}

/// Position `k` is the first of `indices` that is past the last of `n` atoms.
pub open spec fn first_out_of_range(indices: Seq<usize>, n: nat, k: int) -> bool {
    &&& 0 <= k < indices.len()
    &&& indices[k] >= n
    &&& forall|j: int| 0 <= j < k ==> indices[j] < n
}

/// Every index is that of one of `n` atoms.
pub open spec fn all_in_range(indices: Seq<usize>, n: nat) -> bool {
    forall|k: int| 0 <= k < indices.len() ==> indices[k] < n
}

/// Picks the atoms at `indices` out of `atoms`, or says which index is the
/// first that names no atom.
pub fn atoms_at<T: Copy>(atoms: &Vec<T>, indices: &Vec<usize>) -> (r: Result<Vec<T>, RingError>)
    ensures
        match r {
            Ok(ring) => all_in_range(indices@, atoms@.len()) && ring@ == picked(atoms@, indices@),
            Err(RingError::NoSuchAtom(k)) => first_out_of_range(indices@, atoms@.len(), k as int),
            Err(_) => false,
        },
{
    let mut ring: Vec<T> = Vec::with_capacity(indices.len());
    let mut k: usize = 0;
    while k < indices.len()
        invariant
            k <= indices@.len(),
            ring@.len() == k,
            forall|j: int| 0 <= j < k ==> indices@[j] < atoms@.len(),
            forall|j: int| 0 <= j < k ==> ring@[j] == atoms@[indices@[j] as int],
        decreases indices@.len() - k,
    {
        let idx = indices[k];
        if idx >= atoms.len() {
            return Err(RingError::NoSuchAtom(k));
        }
        ring.push(atoms[idx]);
        k += 1;
    }
    assert(ring@ =~= picked(atoms@, indices@));
    Ok(ring)
}

/// `r` is what picking the ring at `indices` gives: the atoms there, in the
/// order of the query, where every index names an atom and their number is
/// that of the ring asked for; else the first of these that fails.
pub open spec fn is_ring_pick<T>(
    atoms: Seq<T>,
    indices: Seq<usize>,
    expected: MemberedRing,
    r: Result<Ring<T>, RingError>,
) -> bool {
    match r {
        Ok(ring) => {
            &&& all_in_range(indices, atoms.len())
            &&& indices.len() == expected.atoms()
            &&& ring@ == picked(atoms, indices)
        },
        Err(RingError::NoSuchAtom(k)) => first_out_of_range(indices, atoms.len(), k as int),
        Err(RingError::NotARing(n)) => {
            &&& all_in_range(indices, atoms.len())
            &&& n == indices.len()
            &&& n != 5 && n != 6
        },
        Err(RingError::WrongRing { expected: asked, found }) => {
            &&& all_in_range(indices, atoms.len())
            &&& asked == expected
            &&& found != expected
            &&& indices.len() == found.atoms()
        },
        Err(RingError::UnknownAtom(_)) => false,
        Err(RingError::TooFewAtoms { .. }) => false,
    }
}

/// Picks the ring whose atoms stand at `indices`.
pub fn ring_from_indices<T: Copy>(
    atoms: &Vec<T>,
    indices: &Vec<usize>,
    expected: MemberedRing,
) -> (r: Result<Ring<T>, RingError>)
    ensures
        is_ring_pick(atoms@, indices@, expected, r),
{
    let picked = match atoms_at(atoms, indices) {
        Ok(picked) => picked,
        Err(e) => {
            return Err(e);
        },
    };
    let ring = match Ring::new(picked) {
        Ok(ring) => ring,
        Err(e) => {
            return Err(e);
        },
    };
    let found = ring.size();
    if found != expected {
        return Err(RingError::WrongRing { expected, found });
    }
    Ok(ring)
}

/// Picks the ring whose atoms have the names `query_names`: each name
/// stands for the first atom of that name.
pub fn ring_from_atomnames<T: Copy>(
    atomnames: &Vec<String>,
    atoms: &Vec<T>,
    query_names: &Vec<String>,
    expected: MemberedRing,
) -> (r: Result<Ring<T>, RingError>)
    ensures
        match r {
            Err(RingError::UnknownAtom(k)) => first_unknown(
                atomnames.names(),
                query_names.names(),
                k as int,
            ),
            _ => {
                &&& all_known(atomnames.names(), query_names.names())
                &&& is_ring_pick(
                    atoms@,
                    positions_of(atomnames.names(), query_names.names()),
                    expected,
                    r,
                )
            },
        },
{
    match indices_of_names(atomnames, query_names) {
        Ok(indices) => ring_from_indices(atoms, &indices, expected),
        Err(k) => Err(RingError::UnknownAtom(k)),
    }
}

/// Picks the atoms at `indices` and keeps as many of them as the ring has,
/// from the first on: the torsion angles of a ring are taken of these.
/// Where fewer are queried than the ring has, none are picked.
pub fn leading_ring_from_indices<T: Copy>(
    atoms: &Vec<T>,
    indices: &Vec<usize>,
    ring: MemberedRing,
) -> (r: Result<Ring<T>, RingError>)
    ensures
        match r {
            Ok(leading) => {
                &&& all_in_range(indices@, atoms@.len())
                &&& indices@.len() >= ring.atoms()
                &&& leading@ == picked(atoms@, indices@).subrange(0, ring.atoms() as int)
            },
            Err(RingError::NoSuchAtom(k)) => first_out_of_range(indices@, atoms@.len(), k as int),
            Err(RingError::TooFewAtoms { expected, given }) => {
                &&& all_in_range(indices@, atoms@.len())
                &&& expected == ring
                &&& given == indices@.len()
                &&& given < ring.atoms()
            },
            Err(_) => false,
        },
{
    let mut picked = match atoms_at(atoms, indices) {
        Ok(picked) => picked,
        Err(e) => {
            return Err(e);
        },
    };
    if picked.len() < ring.size() {
        return Err(RingError::TooFewAtoms { expected: ring, given: picked.len() });
    }
    picked.truncate(ring.size());
    Ring::new(picked)
}

} // verus!
