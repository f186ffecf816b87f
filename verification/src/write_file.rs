//! Rings laid out as the text of a PDB or an XYZ file. The coordinates
//! come as text already: to write a number with a decimal point is left to
//! the caller.

use vstd::prelude::*;
use vstd::string::{StrSliceExecFns, StringExecFns, StringSliceAdditionalSpecFns};
use crate::text::has_suffix;

verus! {

/// Longest residue name that the PDB format has room for, in bytes.
pub const RESIDUE_NAME_WIDTH: usize = 3;

/// Whether a PDB file has room for the residue name.
pub fn residue_name_fits(resname: &str) -> (r: bool)
    ensures
        r == (resname.spec_bytes().len() <= RESIDUE_NAME_WIDTH),
{
    resname.as_bytes().len() <= RESIDUE_NAME_WIDTH
}

/// Whether the file name ends with the extension.
pub fn has_extension(fname: &str, extension: &str) -> (r: bool)
    ensures
        r == extension.spec_bytes().is_suffix_of(fname.spec_bytes()),
{
    has_suffix(fname.as_bytes(), extension.as_bytes())
}

/// Number of ring atoms that have a name.
pub const NAMED_ATOMS: usize = 6;

/// The name of atom `i` of a furanose or pyranose ring: the ring oxygen,
/// then the carbons around the ring.
pub open spec fn atom_name_of(i: int) -> Seq<char> {
    if i == 0 {
        "O4'"@
    } else if i == 1 {
        "C1'"@
    } else if i == 2 {
        "C2'"@
    } else if i == 3 {
        "C3'"@
    } else if i == 4 {
        "C4'"@
    } else {
        "C5'"@
    }
}

/// The name of atom `i` of the ring; `None` past the sixth atom.
pub fn atom_name(i: usize) -> (r: Option<&'static str>)
    ensures
        i < NAMED_ATOMS ==> r.is_some() && r.unwrap()@ == atom_name_of(i as int),
        i >= NAMED_ATOMS ==> r.is_none(),
{
    if i == 0 {
        Some("O4'")
    } else if i == 1 {
        Some("C1'")
    } else if i == 2 {
        Some("C2'")
    } else if i == 3 {
        Some("C3'")
    } else if i == 4 {
        Some("C4'")
    } else if i == 5 {
        Some("C5'")
    } else {
        None
    }
}

/// The number that atom `i` of the ring has in a file, or a count of `i`
/// atoms, as text.
pub open spec fn count_of(i: int) -> Seq<char> {
    if i == 0 {
        "0"@
    } else if i == 1 {
        "1"@
    } else if i == 2 {
        "2"@
    } else if i == 3 {
        "3"@
    } else if i == 4 {
        "4"@
    } else if i == 5 {
        "5"@
    } else {
        "6"@
    }
}

/// A count of at most six atoms as text; `None` for a larger one.
pub fn count_text(n: usize) -> (r: Option<&'static str>)
    ensures
        n <= NAMED_ATOMS ==> r.is_some() && r.unwrap()@ == count_of(n as int),
        n > NAMED_ATOMS ==> r.is_none(),
{
    if n == 0 {
        Some("0")
    } else if n == 1 {
        Some("1")
    } else if n == 2 {
        Some("2")
    } else if n == 3 {
        Some("3")
    } else if n == 4 {
        Some("4")
    } else if n == 5 {
        Some("5")
    } else if n == 6 {
        Some("6")
    } else {
        None
    }
}

/// The element of atom `i` of the ring: oxygen for atom 0, carbon for the
/// others.
pub open spec fn element_of(i: int) -> Seq<char> {
    if i == 0 {
        "O"@
    } else {
        "C"@
    }
}

/// The element of atom `i` of the ring; `None` past the sixth atom.
pub fn element(i: usize) -> (r: Option<&'static str>)
    ensures
        i < NAMED_ATOMS ==> r.is_some() && r.unwrap()@ == element_of(i as int),
        i >= NAMED_ATOMS ==> r.is_none(),
{
    if i == 0 {
        Some("O")
    } else if i < NAMED_ATOMS {
        Some("C")
    } else {
        None
    }
}

/// The element of an atom of the ring is the first letter of its name.
pub proof fn lemma_element_leads_name(i: int)
    requires
        0 <= i < NAMED_ATOMS,
    ensures
        element_of(i) == seq![atom_name_of(i)[0]],
{
    reveal_strlit("O4'");
    reveal_strlit("C1'");
    reveal_strlit("C2'");
    reveal_strlit("C3'");
    reveal_strlit("C4'");
    reveal_strlit("C5'");
    reveal_strlit("O");
    reveal_strlit("C");
    assert(element_of(i) =~= seq![atom_name_of(i)[0]]);
}

/// Number of atoms that a PDB file takes of `given` atoms: six of six, else
/// the first five; `None` where fewer than five are given.
pub fn pdb_atom_count(given: usize) -> (r: Option<usize>)
    ensures
        given == 6 ==> r == Some(6usize),
        given >= 5 && given != 6 ==> r == Some(5usize),
        given < 5 ==> r.is_none(),
{
    if given == 6 {
        Some(6)
    } else if given >= 5 {
        Some(5)
    } else {
        None
    }
}

/// Number of atoms that an XYZ file takes of `given` atoms: all of them;
/// `None` where more are given than a ring has, that is more than six.
pub fn xyz_atom_count(given: usize) -> (r: Option<usize>)
    ensures
        given <= 6 ==> r == Some(given),
        given > 6 ==> r.is_none(),
{
    if given <= 6 {
        Some(given)
    } else {
        None
    }
}

/// `n` spaces; none where `n` is not positive.
pub open spec fn spaces(n: int) -> Seq<char> {
    Seq::new(
        if n > 0 {
            n as nat
        } else {
            0
        },
        |i: int| ' ',
    )
}

/// The field at the right end of `width` characters; a longer field is
/// kept whole.
pub open spec fn right_aligned(field: Seq<char>, width: nat) -> Seq<char> {
    spaces(width - field.len()) + field
}

/// The field at the left end of `width` characters; a longer field is kept
/// whole.
pub open spec fn left_aligned(field: Seq<char>, width: nat) -> Seq<char> {
    field + spaces(width - field.len())
}

/// Appends `n` spaces.
fn push_spaces(out: &mut String, n: usize)
    ensures
        final(out)@ == old(out)@ + spaces(n as int),
{
    proof {
        reveal_strlit(" ");
    }
    let mut i: usize = 0;
    assert(out@ =~= old(out)@ + spaces(0));
    while i < n
        invariant
            i <= n,
            " "@ == seq![' '],
            out@ == old(out)@ + spaces(i as int),
        decreases n - i,
    {
        let ghost before = out@;
        out.append(" ");
        assert(out@ =~= old(out)@ + spaces(i as int + 1)) by {
            assert(out@ == before + seq![' ']);
        }
        i += 1;
    }
}

/// Appends the field, at the right end of `width` characters.
fn push_right(out: &mut String, field: &str, width: usize)
    ensures
        final(out)@ == old(out)@ + right_aligned(field@, width as nat),
{
    let len = field.unicode_len();
    if len < width {
        push_spaces(out, width - len);
    } else {
        assert(spaces(width - len) =~= Seq::<char>::empty());
    }
    out.append(field);
    assert(out@ =~= old(out)@ + right_aligned(field@, width as nat));
}

/// Appends the field, at the left end of `width` characters.
fn push_left(out: &mut String, field: &str, width: usize)
    ensures
        final(out)@ == old(out)@ + left_aligned(field@, width as nat),
{
    let len = field.unicode_len();
    out.append(field);
    if len < width {
        push_spaces(out, width - len);
    } else {
        assert(spaces(width - len) =~= Seq::<char>::empty());
    }
    assert(out@ =~= old(out)@ + left_aligned(field@, width as nat));
}

/// The three coordinates of an atom, each written out as text.
pub struct WrittenAtom {
    pub x: String,
    pub y: String,
    pub z: String,
}

/// One atom record of a PDB file: the number of the atom in four columns,
/// its name in four, the residue name in three, chain `A` and residue 1,
/// the coordinates in eight columns each, and the element.
pub open spec fn pdb_record_of(
    number: Seq<char>,
    name: Seq<char>,
    resname: Seq<char>,
    x: Seq<char>,
    y: Seq<char>,
    z: Seq<char>,
    element: Seq<char>,
) -> Seq<char> {
    "ATOM   "@ + right_aligned(number, 4) + " "@ + left_aligned(name, 4) + " "@ + right_aligned(
        resname,
        3,
    ) + " A   1    "@ + right_aligned(x, 8) + right_aligned(y, 8) + right_aligned(z, 8) + "  "@
        + right_aligned(element, 22) + "\n"@
}

/// Appends the record of atom `i` of the ring.
fn push_pdb_record(out: &mut String, i: usize, at: &WrittenAtom, resname: &str)
    requires
        i < NAMED_ATOMS,
    ensures
        final(out)@ == old(out)@ + pdb_record_of(
            count_of(i + 1),
            atom_name_of(i as int),
            resname@,
            at.x@,
            at.y@,
            at.z@,
            element_of(i as int),
        ),
{
    let number = count_text(i + 1).unwrap();
    let name = atom_name(i).unwrap();
    let symbol = element(i).unwrap();
    out.append("ATOM   ");
    push_right(out, number, 4);
    out.append(" ");
    push_left(out, name, 4);
    out.append(" ");
    push_right(out, resname, 3);
    out.append(" A   1    ");
    push_right(out, at.x.as_str(), 8);
    push_right(out, at.y.as_str(), 8);
    push_right(out, at.z.as_str(), 8);
    out.append("  ");
    push_right(out, symbol, 22);
    out.append("\n");
    assert(out@ =~= old(out)@ + pdb_record_of(
        count_of(i + 1),
        atom_name_of(i as int),
        resname@,
        at.x@,
        at.y@,
        at.z@,
        element_of(i as int),
    ));
}

/// The records of the first `n` atoms of a ring, one after the other.
pub open spec fn pdb_records_of(atoms: Seq<WrittenAtom>, resname: Seq<char>, n: nat) -> Seq<char>
    decreases n,
{
    if n == 0 {
        Seq::empty()
    } else {
        let i = (n - 1) as int;
        pdb_records_of(atoms, resname, (n - 1) as nat) + pdb_record_of(
            count_of(i + 1),
            atom_name_of(i),
            resname,
            atoms[i].x@,
            atoms[i].y@,
            atoms[i].z@,
            element_of(i),
        )
    }
}

/// Why a ring could not be written.
#[derive(Clone, Copy, Debug, PartialEq, Eq, Structural)]
pub enum WriteError {
    /// The residue name is longer than three bytes.
    ResidueName,
    /// Fewer atoms were given than a ring has.
    TooFewAtoms,
    /// More atoms were given than a ring has.
    TooManyAtoms,
}

/// The text of a PDB file that holds the ring: the records of its first
/// five atoms, or of all six where six are given.
pub fn pdb_text(atoms: &Vec<WrittenAtom>, resname: &str) -> (r: Result<String, WriteError>)
    ensures
        match r {
            Ok(text) => {
                &&& resname.spec_bytes().len() <= RESIDUE_NAME_WIDTH
                &&& atoms@.len() >= 5
                &&& text@ == pdb_records_of(
                    atoms@,
                    resname@,
                    if atoms@.len() == 6 {
                        6
                    } else {
                        5
                    },
                )
            },
            Err(WriteError::ResidueName) => resname.spec_bytes().len() > RESIDUE_NAME_WIDTH,
            Err(WriteError::TooFewAtoms) => {
                &&& resname.spec_bytes().len() <= RESIDUE_NAME_WIDTH
                &&& atoms@.len() < 5
            },
            Err(WriteError::TooManyAtoms) => false,
        },
{
    if !residue_name_fits(resname) {
        return Err(WriteError::ResidueName);
    }
    let count = match pdb_atom_count(atoms.len()) {
        Some(count) => count,
        None => {
            return Err(WriteError::TooFewAtoms);
        },
    };
    let mut text = String::new();
    let mut i: usize = 0;
    assert(text@ =~= pdb_records_of(atoms@, resname@, 0));
    while i < count
        invariant
            i <= count <= NAMED_ATOMS,
            count <= atoms@.len(),
            text@ == pdb_records_of(atoms@, resname@, i as nat),
        decreases count - i,
    {
        push_pdb_record(&mut text, i, &atoms[i], resname);
        i += 1;
    }
    Ok(text)
}

/// The comment line of an XYZ file.
pub open spec fn xyz_comment() -> Seq<char> {
    "Coordinates generated by pucke.py\n"@
}

/// One coordinate line of an XYZ file: the element in two columns and the
/// coordinates in nineteen columns each.
pub open spec fn xyz_record_of(element: Seq<char>, x: Seq<char>, y: Seq<char>, z: Seq<char>) -> Seq<
    char,
> {
    right_aligned(element, 2) + " "@ + right_aligned(x, 19) + "   "@ + right_aligned(y, 19)
        + "   "@ + right_aligned(z, 19) + "\n"@
}

/// Appends the coordinate line of atom `i` of the ring.
fn push_xyz_record(out: &mut String, i: usize, at: &WrittenAtom)
    requires
        i < NAMED_ATOMS,
    ensures
        final(out)@ == old(out)@ + xyz_record_of(element_of(i as int), at.x@, at.y@, at.z@),
{
    let symbol = element(i).unwrap();
    let ghost before = out@;
    push_right(out, symbol, 2);
    out.append(" ");
    push_right(out, at.x.as_str(), 19);
    out.append("   ");
    push_right(out, at.y.as_str(), 19);
    out.append("   ");
    push_right(out, at.z.as_str(), 19);
    out.append("\n");
    assert(out@ =~= before + xyz_record_of(element_of(i as int), at.x@, at.y@, at.z@));
}

/// The coordinate lines of the first `n` atoms of a ring.
pub open spec fn xyz_records_of(atoms: Seq<WrittenAtom>, n: nat) -> Seq<char>
    decreases n,
{
    if n == 0 {
        Seq::empty()
    } else {
        let i = (n - 1) as int;
        xyz_records_of(atoms, (n - 1) as nat) + xyz_record_of(
            element_of(i),
            atoms[i].x@,
            atoms[i].y@,
            atoms[i].z@,
        )
    }
}

/// The text of an XYZ file that holds the ring: the number of its atoms,
/// the comment, and one line for each atom.
pub fn xyz_text(atoms: &Vec<WrittenAtom>) -> (r: Result<String, WriteError>)
    ensures
        match r {
            Ok(text) => {
                &&& atoms@.len() <= NAMED_ATOMS
                &&& text@ == count_of(atoms@.len() as int) + "\n"@ + xyz_comment() + xyz_records_of(
                    atoms@,
                    atoms@.len(),
                )
            },
            Err(WriteError::TooManyAtoms) => atoms@.len() > NAMED_ATOMS,
            Err(_) => false,
        },
{
    let count = match xyz_atom_count(atoms.len()) {
        Some(count) => count,
        None => {
            return Err(WriteError::TooManyAtoms);
        },
    };
    let mut text = String::new();
    text.append(count_text(count).unwrap());
    text.append("\n");
    text.append("Coordinates generated by pucke.py\n");
    let ghost head = text@;
    assert(head =~= count_of(atoms@.len() as int) + "\n"@ + xyz_comment());
    let mut i: usize = 0;
    assert(text@ =~= head + xyz_records_of(atoms@, 0));
    while i < count
        invariant
            i <= count <= NAMED_ATOMS,
            count == atoms@.len(),
            text@ == head + xyz_records_of(atoms@, i as nat),
        decreases count - i,
    {
        let ghost before = text@;
        push_xyz_record(&mut text, i, &atoms[i]);
        assert(text@ =~= head + xyz_records_of(atoms@, (i + 1) as nat)) by {
            assert(text@ == before + xyz_record_of(
                element_of(i as int),
                atoms@[i as int].x@,
                atoms@[i as int].y@,
                atoms@[i as int].z@,
            ));
        }
        i += 1;
    }
    Ok(text)
}

} // verus!
