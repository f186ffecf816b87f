//! Structure files framed: the atom records of a PDB file, the coordinate
//! lines of an XYZ file, and the monomers of a chain. A field is the range
//! of the file's bytes that holds it; to read the numbers with a decimal
//! point in it is left to the caller.

use vstd::prelude::*;
use crate::text::{
    fields_of, is_trim_of, lemma_four_digits_at_most, lines_of, parse_u16, parsed_u16,
    split_fields, split_lines, starts_with, trim, trimmed, Span,
};

verus! {

/// The bytes of `ATOM`.
pub open spec fn atom_keyword() -> Seq<u8> {
    seq![65u8, 84u8, 79u8, 77u8]
}

/// The bytes of `HETATM`.
pub open spec fn hetatm_keyword() -> Seq<u8> {
    seq![72u8, 69u8, 84u8, 65u8, 84u8, 77u8]
}

/// The line is an atom record: it begins with `ATOM` or, where hetero atoms
/// are read too, with `HETATM`.
pub open spec fn is_atom_line(line: Seq<u8>, hetero: bool) -> bool {
    atom_keyword().is_prefix_of(line) || (hetero && hetatm_keyword().is_prefix_of(line))
}

/// Width of an atom record up to the end of its last coordinate.
pub const ATOM_RECORD_WIDTH: usize = 55;

/// The columns `from..to` of a line.
pub open spec fn columns(line: Span, from: nat, to: nat) -> Span {
    Span { start: (line.start + from) as usize, end: (line.start + to) as usize }
}

/// The fields of one atom record, each without the blanks around it.
#[derive(Clone, Copy, Debug, PartialEq, Eq, Structural)]
pub struct AtomFields {
    /// The line that holds the record.
    pub line: Span,
    /// The atom name, from columns 12 to 16.
    pub name: Span,
    /// The residue number, from columns 22 to 26.
    pub residue: Span,
    /// The x coordinate, from columns 31 to 39.
    pub x: Span,
    /// The y coordinate, from columns 39 to 47.
    pub y: Span,
    /// The z coordinate, from columns 47 to 55.
    pub z: Span,
}

impl AtomFields {
    /// The line is as wide as an atom record and lies in the text, and
    /// every field is the trimmed form of its columns of the line.
    pub open spec fn read_from(self, text: Seq<u8>) -> bool {
        &&& self.line.start + ATOM_RECORD_WIDTH <= self.line.end
        &&& self.line.end <= text.len()
        &&& is_trim_of(text, columns(self.line, 12, 16), self.name)
        &&& is_trim_of(text, columns(self.line, 22, 26), self.residue)
        &&& is_trim_of(text, columns(self.line, 31, 39), self.x)
        &&& is_trim_of(text, columns(self.line, 39, 47), self.y)
        &&& is_trim_of(text, columns(self.line, 47, 55), self.z)
    }
}

/// The fields of the atom record on `line`.
pub open spec fn atom_fields_of(text: Seq<u8>, line: Span) -> AtomFields {
    AtomFields {
        line,
        name: trimmed(text, columns(line, 12, 16)),
        residue: trimmed(text, columns(line, 22, 26)),
        x: trimmed(text, columns(line, 31, 39)),
        y: trimmed(text, columns(line, 39, 47)),
        z: trimmed(text, columns(line, 47, 55)),
    }
}

/// What one line of a PDB file holds.
#[derive(Clone, Copy, Debug, PartialEq, Eq, Structural)]
pub enum PdbLine {
    /// No atom record.
    Other,
    /// An atom record that ends before its last coordinate does.
    Truncated,
    /// An atom record.
    Atom(AtomFields),
}

/// What `line` holds.
pub open spec fn pdb_line_of(text: Seq<u8>, line: Span, hetero: bool) -> PdbLine {
    if !is_atom_line(line.of(text), hetero) {
        PdbLine::Other
    } else if line.end - line.start < ATOM_RECORD_WIDTH {
        PdbLine::Truncated
    } else {
        PdbLine::Atom(atom_fields_of(text, line))
    }
}

/// Reads one line of a PDB file.
pub fn read_pdb_line(text: &[u8], line: Span, hetero: bool) -> (r: PdbLine)
    requires
        line.fits(text@.len()),
    ensures
        r == pdb_line_of(text@, line, hetero),
        r matches PdbLine::Atom(fields) ==> fields.read_from(text@),
{
    let atom: [u8; 4] = [65, 84, 79, 77];
    let hetatm: [u8; 6] = [72, 69, 84, 65, 84, 77];
    assert(atom@ =~= atom_keyword());
    assert(hetatm@ =~= hetatm_keyword());
    let is_atom = starts_with(text, line, atom.as_slice()) || (hetero && starts_with(
        text,
        line,
        hetatm.as_slice(),
    ));
    if !is_atom {
        PdbLine::Other
    } else if line.end - line.start < ATOM_RECORD_WIDTH {
        PdbLine::Truncated
    } else {
        let first = line.start;
        PdbLine::Atom(
            AtomFields {
                line,
                name: trim(text, Span { start: first + 12, end: first + 16 }),
                residue: trim(text, Span { start: first + 22, end: first + 26 }),
                x: trim(text, Span { start: first + 31, end: first + 39 }),
                y: trim(text, Span { start: first + 39, end: first + 47 }),
                z: trim(text, Span { start: first + 47, end: first + 55 }),
            },
        )
    }
}

/// Why a PDB file could not be read.
#[derive(Clone, Copy, Debug, PartialEq, Eq, Structural)]
pub enum PdbError {
    /// The atom record on this line ends before its last coordinate does.
    Truncated(Span),
    /// The residue number of the atom record on this line is no number.
    ResidueNumber(Span),
}

/// The atom records on `lines`, in their order, or the first line whose
/// atom record is cut short.
pub open spec fn atoms_among(text: Seq<u8>, lines: Seq<Span>, hetero: bool) -> Result<
    Seq<AtomFields>,
    PdbError,
>
    decreases lines.len(),
{
    if lines.len() == 0 {
        Ok(Seq::empty())
    } else {
        match atoms_among(text, lines.drop_last(), hetero) {
            Err(e) => Err(e),
            Ok(atoms) => match pdb_line_of(text, lines.last(), hetero) {
                PdbLine::Other => Ok(atoms),
                PdbLine::Truncated => Err(PdbError::Truncated(lines.last())),
                PdbLine::Atom(fields) => Ok(atoms.push(fields)),
            },
        }
    }
}

/// The atom records of a PDB file.
pub open spec fn pdb_atoms_of(text: Seq<u8>, hetero: bool) -> Result<Seq<AtomFields>, PdbError> {
    atoms_among(text, lines_of(text), hetero)
}

/// Finds the atom records of a PDB file, and those of hetero atoms too where
/// `hetero` is set.
pub fn pdb_atoms(text: &[u8], hetero: bool) -> (r: Result<Vec<AtomFields>, PdbError>)
    ensures
        match r {
            Ok(atoms) => {
                &&& pdb_atoms_of(text@, hetero) == Ok::<Seq<AtomFields>, PdbError>(atoms@)
                &&& forall|k: int| 0 <= k < atoms@.len() ==> (#[trigger] atoms@[k]).read_from(text@)
            },
            Err(e) => pdb_atoms_of(text@, hetero) == Err::<Seq<AtomFields>, PdbError>(e),
        },
{
    let lines = split_lines(text);
    let mut atoms: Vec<AtomFields> = Vec::new();
    let mut k: usize = 0;
    while k < lines.len()
        invariant
            k <= lines@.len(),
            lines@ == lines_of(text@),
            forall|j: int| 0 <= j < lines@.len() ==> (#[trigger] lines@[j]).fits(text@.len()),
            atoms_among(text@, lines@.subrange(0, k as int), hetero) == Ok::<
                Seq<AtomFields>,
                PdbError,
            >(atoms@),
            forall|j: int| 0 <= j < atoms@.len() ==> (#[trigger] atoms@[j]).read_from(text@),
        decreases lines@.len() - k,
    {
        let line = lines[k];
        proof {
            let longer = lines@.subrange(0, k + 1);
            assert(longer.drop_last() =~= lines@.subrange(0, k as int));
            assert(longer.last() == line);
        }
        match read_pdb_line(text, line, hetero) {
            PdbLine::Other => {},
            PdbLine::Truncated => {
                proof {
                    lemma_atoms_fail_for_good(text@, lines@, hetero, k + 1);
                }
                return Err(PdbError::Truncated(line));
            },
            PdbLine::Atom(fields) => {
                atoms.push(fields);
            },
        }
        k += 1;
    }
    assert(lines@.subrange(0, k as int) =~= lines@);
    Ok(atoms)
}

/// Once a line is cut short, reading further lines changes nothing.
pub proof fn lemma_atoms_fail_for_good(text: Seq<u8>, lines: Seq<Span>, hetero: bool, k: int)
    requires
        0 <= k <= lines.len(),
        atoms_among(text, lines.subrange(0, k), hetero) is Err,
    ensures
        atoms_among(text, lines, hetero) == atoms_among(text, lines.subrange(0, k), hetero),
    decreases lines.len() - k,
{
    if k == lines.len() {
        assert(lines.subrange(0, k) =~= lines);
    } else {
        let longer = lines.subrange(0, k + 1);
        assert(longer.drop_last() =~= lines.subrange(0, k));
        lemma_atoms_fail_for_good(text, lines, hetero, k + 1);
    }
}

/// Stands for the residue number while no atom has been read. A residue
/// number of a PDB file has four digits and never reaches it.
pub const UNSET_RESIDUE: u16 = 42069;

/// One monomer of a chain: its residue number and the atoms `start..end`.
#[derive(Clone, Copy, Debug, PartialEq, Eq, Structural)]
pub struct Monomer {
    pub resnumber: u16,
    pub start: usize,
    pub end: usize,
}

/// The monomers closed, the residue number of the open one and its first
/// atom, after the first `n` atoms have been read. An atom whose residue
/// number differs from that of the open monomer closes it and opens the
/// next; while the open monomer's number is `UNSET_RESIDUE` it takes the
/// atom's number instead.
pub open spec fn monomers_after(residues: Seq<u16>, n: nat) -> (Seq<Monomer>, u16, nat)
    decreases n,
{
    if n == 0 {
        (Seq::empty(), UNSET_RESIDUE, 0)
    } else {
        let (closed, open, start) = monomers_after(residues, (n - 1) as nat);
        let resnumber = residues[n - 1];
        let current = if open == UNSET_RESIDUE {
            resnumber
        } else {
            open
        };
        if current != resnumber {
            (
                closed.push(
                    Monomer { resnumber: current, start: start as usize, end: (n - 1) as usize },
                ),
                resnumber,
                (n - 1) as nat,
            )
        } else {
            (closed, current, start)
        }
    }
}

/// The monomers of a chain whose atoms have the residue numbers `residues`.
pub open spec fn monomers_of(residues: Seq<u16>) -> Seq<Monomer> {
    let (closed, open, start) = monomers_after(residues, residues.len());
    closed.push(Monomer { resnumber: open, start: start as usize, end: residues.len() as usize })
}

/// The monomers follow one another and cover the atoms `0..n`; none but the
/// last can be empty, and the last is only where there are no atoms.
pub open spec fn is_partition(monomers: Seq<Monomer>, n: nat) -> bool {
    &&& monomers.len() >= 1
    &&& monomers[0].start == 0
    &&& monomers[monomers.len() - 1].end == n
    &&& forall|k: int| 0 <= k < monomers.len() ==> (#[trigger] monomers[k]).start <= monomers[k].end
    &&& forall|k: int|
        0 <= k < monomers.len() - 1 ==> (#[trigger] monomers[k]).start < monomers[k].end
    &&& n > 0 ==> monomers[monomers.len() - 1].start < monomers[monomers.len() - 1].end
    &&& forall|k: int|
        0 <= k < monomers.len() - 1 ==> (#[trigger] monomers[k]).end == monomers[k + 1].start
}

/// Each atom of a monomer has the monomer's residue number or
/// `UNSET_RESIDUE`, and the first atom of the next monomer has another
/// number than the monomer before it.
pub open spec fn is_grouped(residues: Seq<u16>, monomers: Seq<Monomer>) -> bool {
    &&& forall|k: int, i: int|
        0 <= k < monomers.len() && (#[trigger] monomers[k]).start <= i < monomers[k].end ==> {
            ||| #[trigger] residues[i] == monomers[k].resnumber
            ||| residues[i] == UNSET_RESIDUE
        }
    &&& forall|k: int|
        0 <= k < monomers.len() - 1 ==> residues[(#[trigger] monomers[k]).end as int]
            != monomers[k].resnumber
}

/// Splits a chain into its monomers by the residue numbers of its atoms.
#[verifier::rlimit(40)]
pub fn split_monomers(residues: &Vec<u16>) -> (monomers: Vec<Monomer>)
    ensures
        monomers@ == monomers_of(residues@),
        is_partition(monomers@, residues@.len()),
        is_grouped(residues@, monomers@),
{
    let mut closed: Vec<Monomer> = Vec::new();
    let mut open: u16 = UNSET_RESIDUE;
    let mut start: usize = 0;
    let mut i: usize = 0;
    while i < residues.len()
        invariant
            i <= residues@.len(),
            monomers_after(residues@, i as nat) == (closed@, open, start as nat),
            start <= i,
            i > 0 ==> start < i,
            closed@.len() == 0 ==> start == 0,
            closed@.len() > 0 ==> closed@[0].start == 0 && closed@[closed@.len() - 1].end == start,
            forall|k: int| 0 <= k < closed@.len() ==> (#[trigger] closed@[k]).start < closed@[k].end,
            forall|k: int| 0 <= k < closed@.len() ==> (#[trigger] closed@[k]).end <= start,
            forall|k: int|
                0 <= k < closed@.len() - 1 ==> (#[trigger] closed@[k]).end == closed@[k + 1].start,
            forall|k: int, j: int|
                0 <= k < closed@.len() && (#[trigger] closed@[k]).start <= j < closed@[k].end ==> {
                    ||| #[trigger] residues@[j] == closed@[k].resnumber
                    ||| residues@[j] == UNSET_RESIDUE
                },
            forall|k: int|
                0 <= k < closed@.len() ==> residues@[(#[trigger] closed@[k]).end as int]
                    != closed@[k].resnumber,
            forall|j: int|
                start <= j < i ==> #[trigger] residues@[j] == open || residues@[j]
                    == UNSET_RESIDUE,
        decreases residues@.len() - i,
    {
        let resnumber = residues[i];
        if open == UNSET_RESIDUE {
            open = resnumber;
        }
        if open != resnumber {
            closed.push(Monomer { resnumber: open, start, end: i });
            open = resnumber;
            start = i;
        }
        i += 1;
    }
    closed.push(Monomer { resnumber: open, start, end: i });
    closed
}

/// The residue number of an atom, where its field holds a number.
pub open spec fn residue_of(text: Seq<u8>, atom: AtomFields) -> Option<u16> {
    parsed_u16(atom.residue.of(text))
}

/// The residue numbers of the atoms, or the line of the first atom whose
/// residue number is no number.
pub open spec fn residues_among(text: Seq<u8>, atoms: Seq<AtomFields>) -> Result<
    Seq<u16>,
    PdbError,
>
    decreases atoms.len(),
{
    if atoms.len() == 0 {
        Ok(Seq::empty())
    } else {
        match residues_among(text, atoms.drop_last()) {
            Err(e) => Err(e),
            Ok(residues) => match residue_of(text, atoms.last()) {
                Some(n) => Ok(residues.push(n)),
                None => Err(PdbError::ResidueNumber(atoms.last().line)),
            },
        }
    }
}

/// Once a residue number is no number, reading further atoms changes
/// nothing.
pub proof fn lemma_residues_fail_for_good(text: Seq<u8>, atoms: Seq<AtomFields>, k: int)
    requires
        0 <= k <= atoms.len(),
        residues_among(text, atoms.subrange(0, k)) is Err,
    ensures
        residues_among(text, atoms) == residues_among(text, atoms.subrange(0, k)),
    decreases atoms.len() - k,
{
    if k == atoms.len() {
        assert(atoms.subrange(0, k) =~= atoms);
    } else {
        let longer = atoms.subrange(0, k + 1);
        assert(longer.drop_last() =~= atoms.subrange(0, k));
        lemma_residues_fail_for_good(text, atoms, k + 1);
    }
}

/// The atoms of a PDB file, hetero atoms too, and the monomers that their
/// residue numbers split them into. A record that is cut short anywhere in
/// the file is found before a residue number that is no number.
pub open spec fn pdb_monomers_of(text: Seq<u8>) -> Result<(Seq<AtomFields>, Seq<Monomer>), PdbError> {
    match pdb_atoms_of(text, true) {
        Err(e) => Err(e),
        Ok(atoms) => match residues_among(text, atoms) {
            Err(e) => Err(e),
            Ok(residues) => Ok((atoms, monomers_of(residues))),
        },
    }
}

/// Reads the residue number of each atom.
pub fn residue_numbers(text: &[u8], atoms: &Vec<AtomFields>) -> (r: Result<Vec<u16>, PdbError>)
    requires
        forall|k: int| 0 <= k < atoms@.len() ==> (#[trigger] atoms@[k]).residue.fits(text@.len()),
    ensures
        match r {
            Ok(residues) => {
                &&& residues_among(text@, atoms@) == Ok::<Seq<u16>, PdbError>(residues@)
                &&& residues@.len() == atoms@.len()
                &&& forall|k: int|
                    0 <= k < atoms@.len() ==> residue_of(text@, #[trigger] atoms@[k]) == Some(
                        residues@[k],
                    )
            },
            Err(e) => residues_among(text@, atoms@) == Err::<Seq<u16>, PdbError>(e),
        },
{
    let mut residues: Vec<u16> = Vec::with_capacity(atoms.len());
    let mut k: usize = 0;
    while k < atoms.len()
        invariant
            k <= atoms@.len(),
            residues@.len() == k,
            forall|j: int|
                0 <= j < atoms@.len() ==> (#[trigger] atoms@[j]).residue.fits(text@.len()),
            forall|j: int|
                0 <= j < k ==> residue_of(text@, #[trigger] atoms@[j]) == Some(residues@[j]),
            residues_among(text@, atoms@.subrange(0, k as int)) == Ok::<Seq<u16>, PdbError>(
                residues@,
            ),
        decreases atoms@.len() - k,
    {
        let fields = atoms[k];
        proof {
            let longer = atoms@.subrange(0, k + 1);
            assert(longer.drop_last() =~= atoms@.subrange(0, k as int));
            assert(longer.last() == fields);
        }
        match parse_u16(text, fields.residue) {
            Some(n) => {
                residues.push(n);
            },
            None => {
                proof {
                    lemma_residues_fail_for_good(text@, atoms@, k + 1);
                }
                return Err(PdbError::ResidueNumber(fields.line));
            },
        }
        k += 1;
    }
    assert(atoms@.subrange(0, k as int) =~= atoms@);
    Ok(residues)
}

/// Each monomer holds atoms of its own residue number alone, and the
/// monomer after it has another number.
pub open spec fn is_split_by_residue(
    text: Seq<u8>,
    atoms: Seq<AtomFields>,
    monomers: Seq<Monomer>,
) -> bool {
    &&& forall|k: int, i: int|
        0 <= k < monomers.len() && (#[trigger] monomers[k]).start <= i < monomers[k].end
            ==> residue_of(text, #[trigger] atoms[i]) == Some(monomers[k].resnumber)
    &&& forall|k: int|
        0 <= k < monomers.len() - 1 ==> (#[trigger] monomers[k]).resnumber != monomers[k
            + 1].resnumber
}

/// The residue number of an atom record has four columns, so it is at
/// most 9999: it is never the number that stands for no residue.
pub proof fn lemma_residue_has_four_digits(text: Seq<u8>, atom: AtomFields)
    requires
        atom.read_from(text),
        residue_of(text, atom) is Some,
    ensures
        residue_of(text, atom)->0 <= 9999,
        residue_of(text, atom)->0 != UNSET_RESIDUE,
{
    assert(is_trim_of(text, columns(atom.line, 22, 26), atom.residue));
    assert(atom.residue.of(text).len() <= 4);
    lemma_four_digits_at_most(atom.residue.of(text));
}

/// Where no atom has the number that stands for no residue, each monomer
/// holds atoms of its own residue number alone, and the monomer after it
/// has another number.
pub proof fn lemma_monomers_split_by_residue(
    text: Seq<u8>,
    atoms: Seq<AtomFields>,
    residues: Seq<u16>,
    monomers: Seq<Monomer>,
)
    requires
        residues.len() == atoms.len(),
        forall|i: int|
            0 <= i < atoms.len() ==> residue_of(text, #[trigger] atoms[i]) == Some(residues[i]),
        forall|i: int| 0 <= i < residues.len() ==> #[trigger] residues[i] != UNSET_RESIDUE,
        is_partition(monomers, residues.len()),
        is_grouped(residues, monomers),
    ensures
        is_split_by_residue(text, atoms, monomers),
{
    assert forall|k: int, i: int|
        0 <= k < monomers.len() && (#[trigger] monomers[k]).start <= i < monomers[k].end
        implies residue_of(text, #[trigger] atoms[i]) == Some(monomers[k].resnumber) by {
        lemma_monomer_lies_in_chain(monomers, residues.len(), k);
        assert(residues[i] == monomers[k].resnumber || residues[i] == UNSET_RESIDUE);
    }
    assert forall|k: int| 0 <= k < monomers.len() - 1 implies (#[trigger] monomers[k]).resnumber
        != monomers[k + 1].resnumber by {
        let i = monomers[k].end as int;
        lemma_monomer_lies_in_chain(monomers, residues.len(), k);
        lemma_monomer_lies_in_chain(monomers, residues.len(), k + 1);
        assert(monomers[k + 1].start == i);
        assert(monomers[k].start < monomers[k].end);
        assert(monomers[k + 1].start < monomers[k + 1].end);
        assert(residues[i] == monomers[k + 1].resnumber || residues[i] == UNSET_RESIDUE);
    }
}

/// Each monomer of a partition ends within the chain.
pub proof fn lemma_monomer_lies_in_chain(monomers: Seq<Monomer>, n: nat, k: int)
    requires
        is_partition(monomers, n),
        0 <= k < monomers.len(),
    ensures
        monomers[k].start <= monomers[k].end <= n,
    decreases monomers.len() - k,
{
    if k < monomers.len() - 1 {
        lemma_monomer_lies_in_chain(monomers, n, k + 1);
        assert(monomers[k].end == monomers[k + 1].start);
    }
}

/// Finds the atom records of a PDB file and splits them into monomers.
pub fn pdb_monomers(text: &[u8]) -> (r: Result<(Vec<AtomFields>, Vec<Monomer>), PdbError>)
    ensures
        match r {
            Ok((atoms, monomers)) => {
                &&& pdb_monomers_of(text@) == Ok::<(Seq<AtomFields>, Seq<Monomer>), PdbError>(
                    (atoms@, monomers@),
                )
                &&& forall|k: int| 0 <= k < atoms@.len() ==> (#[trigger] atoms@[k]).read_from(text@)
                &&& is_partition(monomers@, atoms@.len())
                &&& is_split_by_residue(text@, atoms@, monomers@)
            },
            Err(e) => pdb_monomers_of(text@) == Err::<(Seq<AtomFields>, Seq<Monomer>), PdbError>(e),
        },
{
    let atoms = match pdb_atoms(text, true) {
        Ok(atoms) => atoms,
        Err(e) => {
            return Err(e);
        },
    };
    assert forall|k: int| 0 <= k < atoms@.len() implies (#[trigger] atoms@[k]).residue.fits(
        text@.len(),
    ) by {
        assert(atoms@[k].read_from(text@));
    }
    let residues = match residue_numbers(text, &atoms) {
        Ok(residues) => residues,
        Err(e) => {
            return Err(e);
        },
    };
    let monomers = split_monomers(&residues);
    proof {
        assert forall|i: int| 0 <= i < residues@.len() implies #[trigger] residues@[i]
            != UNSET_RESIDUE by {
            lemma_residue_has_four_digits(text@, atoms@[i]);
        }
        lemma_monomers_split_by_residue(text@, atoms@, residues@, monomers@);
    }
    Ok((atoms, monomers))
}

/// Number of header lines of an XYZ file: the atom count and the comment.
pub const XYZ_HEADER_LINES: usize = 2;

/// Number of fields of a coordinate line: the element and three coordinates.
pub const XYZ_FIELDS: usize = 4;

/// The fields of one coordinate line of an XYZ file.
#[derive(Clone, Copy, Debug, PartialEq, Eq, Structural)]
pub struct XyzFields {
    pub element: Span,
    pub x: Span,
    pub y: Span,
    pub z: Span,
}

/// The fields of `line` where it has four fields.
pub open spec fn xyz_line_of(text: Seq<u8>, line: Span) -> Option<XyzFields> {
    let fields = fields_of(text, line);
    if fields.len() == XYZ_FIELDS {
        Some(XyzFields { element: fields[0], x: fields[1], y: fields[2], z: fields[3] })
    } else {
        None
    }
}

/// Reads one line of an XYZ file: its four fields, or `None` where the line
/// does not have four fields, as a blank line.
pub fn xyz_fields(text: &[u8], line: Span) -> (r: Option<XyzFields>)
    requires
        line.fits(text@.len()),
    ensures
        r == xyz_line_of(text@, line),
{
    let fields = split_fields(text, line);
    if fields.len() != XYZ_FIELDS {
        None
    } else {
        Some(XyzFields { element: fields[0], x: fields[1], y: fields[2], z: fields[3] })
    }
}

/// The coordinate lines among `lines`, in their order.
pub open spec fn positions_among(text: Seq<u8>, lines: Seq<Span>) -> Seq<XyzFields>
    decreases lines.len(),
{
    if lines.len() == 0 {
        Seq::empty()
    } else {
        let before = positions_among(text, lines.drop_last());
        match xyz_line_of(text, lines.last()) {
            Some(fields) => before.push(fields),
            None => before,
        }
    }
}

/// The coordinate lines of an XYZ file: the lines of four fields after the
/// two header lines.
pub open spec fn xyz_atoms_of(text: Seq<u8>) -> Seq<XyzFields> {
    let lines = lines_of(text);
    if lines.len() <= XYZ_HEADER_LINES {
        Seq::empty()
    } else {
        positions_among(text, lines.subrange(XYZ_HEADER_LINES as int, lines.len() as int))
    }
}

/// Finds the coordinate lines of an XYZ file.
pub fn xyz_atoms(text: &[u8]) -> (atoms: Vec<XyzFields>)
    ensures
        atoms@ == xyz_atoms_of(text@),
{
    let lines = split_lines(text);
    let mut atoms: Vec<XyzFields> = Vec::new();
    if lines.len() <= XYZ_HEADER_LINES {
        return atoms;
    }
    let ghost body = lines@.subrange(XYZ_HEADER_LINES as int, lines@.len() as int);
    let mut k: usize = XYZ_HEADER_LINES;
    while k < lines.len()
        invariant
            XYZ_HEADER_LINES <= k <= lines@.len(),
            lines@ == lines_of(text@),
            body == lines@.subrange(XYZ_HEADER_LINES as int, lines@.len() as int),
            forall|j: int| 0 <= j < lines@.len() ==> (#[trigger] lines@[j]).fits(text@.len()),
            atoms@ == positions_among(text@, body.subrange(0, k - XYZ_HEADER_LINES)),
        decreases lines@.len() - k,
    {
        let line = lines[k];
        proof {
            let longer = body.subrange(0, k - XYZ_HEADER_LINES + 1);
            assert(longer.drop_last() =~= body.subrange(0, k - XYZ_HEADER_LINES));
            assert(longer.last() == line);
        }
        match xyz_fields(text, line) {
            Some(fields) => {
                atoms.push(fields);
            },
            None => {},
        }
        k += 1;
    }
    assert(body.subrange(0, k - XYZ_HEADER_LINES) =~= body);
    atoms
}

} // verus!
