//! Ring puckering of five- and six-membered rings: what is counted,
//! indexed, looked up and framed when the puckering coordinates of a ring
//! are taken, when conformations are sampled, and when structures are
//! read and written.
//!
//! The library holds no floating-point number. It picks the atoms of a
//! ring out of a structure ([`search_atomname`], [`formalism`]), knows the
//! ring as a cycle of atoms, bonds and angles ([`ring`], [`sixring`]) and
//! which corrections make a phase angle ([`phase`]),
//! lays out the samples of a grid ([`sphere`], [`grid`]), finds the records
//! and fields of PDB and XYZ files ([`text`], [`moleculefile`]) and lays out
//! the text of such files ([`write_file`]). The numbers in a field are the
//! caller's to read and to write.

pub mod search_atomname;
pub mod formalism;
pub mod ring;
pub mod phase;
pub mod sixring;
pub mod sphere;
pub mod grid;
pub mod text;
pub mod moleculefile;
pub mod write_file;
