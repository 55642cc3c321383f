use cint_data::cint::rawdata::{AtomGroup, CintAtomGroup, CGTO};
use cint_data::error::CintError;
use cint_data::io::atom::xyz::{find_element, group_atoms, read_xyz, same_bytes, XyzAtom};
use cint_data::io::{ELEMENTS, PERIODIC_TABLE};
use std::collections::BTreeMap;

const AUTOAA: f64 = 0.52917726;

fn aatoau(x: f64) -> f64 {
    x * (1.0 / AUTOAA)
}

fn read_angstrom(field: &Vec<u8>) -> Option<u64> {
    let text = std::str::from_utf8(field).ok()?;
    let x: f64 = text.parse().ok()?;
    Some(aatoau(x).to_bits())
}

fn fields_of(atom: &XyzAtom) -> Vec<String> {
    atom.fields.iter().map(|f| String::from_utf8(f.clone()).unwrap()).collect()
}

fn s_shell() -> Vec<CGTO> {
    vec![CGTO { kappa_of: 0, angl: vec![0], exp: vec![1.0f64.to_bits()], coeff: vec![vec![1.0f64.to_bits()]] }]
}

const WATER: &str = "3

        H -0.5  0.0  0.0
        O  0.0  0.0  0.0
        H  0.5  0.0  0.0
        ";

#[test]
fn periodic_table_runs_from_hydrogen_to_oganesson() {
    assert_eq!(ELEMENTS, 118);
    assert_eq!(PERIODIC_TABLE.len(), 118);
    assert_eq!(PERIODIC_TABLE[0], "H");
    assert_eq!(PERIODIC_TABLE[7], "O");
    assert_eq!(PERIODIC_TABLE[117], "Og");
}

#[test]
fn symbols_resolve_to_atomic_numbers() {
    assert_eq!(find_element(b"H"), Some(1));
    assert_eq!(find_element(b"He"), Some(2));
    assert_eq!(find_element(b"O"), Some(8));
    assert_eq!(find_element(b"Fe"), Some(26));
    assert_eq!(find_element(b"Og"), Some(118));
    for (i, symbol) in PERIODIC_TABLE.iter().enumerate() {
        assert_eq!(find_element(symbol.as_bytes()), Some(i as u8 + 1));
    }
}

#[test]
fn unknown_symbols_do_not_resolve() {
    assert_eq!(find_element(b"Xx"), None);
    assert_eq!(find_element(b"h"), None);
    assert_eq!(find_element(b""), None);
    assert_eq!(find_element(b"HE"), None);
}

#[test]
fn byte_runs_compare_by_content() {
    assert!(same_bytes(b"abc", b"abc"));
    assert!(!same_bytes(b"abc", b"abd"));
    assert!(!same_bytes(b"abc", b"ab"));
    assert!(same_bytes(b"", b""));
}

#[test]
fn geometry_text_gives_its_atoms_in_order() {
    let atoms = read_xyz(WATER).unwrap();
    assert_eq!(atoms.len(), 3);
    assert_eq!(atoms[0].nuc, 1);
    assert_eq!(atoms[1].nuc, 8);
    assert_eq!(atoms[2].nuc, 1);
    assert_eq!(fields_of(&atoms[0]), vec!["-0.5", "0.0", "0.0"]);
    assert_eq!(fields_of(&atoms[2]), vec!["0.5", "0.0", "0.0"]);
}

#[test]
fn declared_count_above_the_lines_is_a_mismatch() {
    let text = "4\ncomment\nH 0 0 0\nO 0 0 1\nH 0 0 2\n";
    assert_eq!(read_xyz(text).err(), Some(CintError::AtomCountMismatch));
}

#[test]
fn declared_count_below_the_lines_is_a_mismatch() {
    let text = "2\ncomment\nH 0 0 0\nO 0 0 1\nH 0 0 2\n";
    assert_eq!(read_xyz(text).err(), Some(CintError::AtomCountMismatch));
    let none = "0\ncomment\nH 0 0 0";
    assert_eq!(read_xyz(none).err(), Some(CintError::AtomCountMismatch));
}

#[test]
fn count_line_must_be_a_number() {
    assert_eq!(read_xyz("three\n\nH 0 0 0").err(), Some(CintError::NumericParse));
    assert_eq!(read_xyz(" 1\n\nH 0 0 0").err(), Some(CintError::NumericParse));
    assert_eq!(read_xyz("-1\n\nH 0 0 0").err(), Some(CintError::NumericParse));
    assert_eq!(read_xyz("1.0\n\nH 0 0 0").err(), Some(CintError::NumericParse));
    assert_eq!(read_xyz("+\n\nH 0 0 0").err(), Some(CintError::NumericParse));
    assert_eq!(read_xyz("99999999999999999999999999\n\nH 0 0 0").err(), Some(CintError::NumericParse));
    assert_eq!(read_xyz("").err(), Some(CintError::NumericParse));
    assert_eq!(read_xyz("  \n \n").err(), Some(CintError::NumericParse));
    assert_eq!(read_xyz("\n\nH 0 0 0").err(), Some(CintError::NumericParse));
}

#[test]
fn count_line_may_carry_a_plus_sign_and_zeros() {
    assert_eq!(read_xyz("+1\n\nH 0 0 0").unwrap().len(), 1);
    assert_eq!(read_xyz("001\n\nH 0 0 0").unwrap().len(), 1);
    assert_eq!(read_xyz("1\r\n\r\nH 0 0 0\r\n").unwrap().len(), 1);
}

#[test]
fn geometry_without_atoms() {
    assert_eq!(read_xyz("0").unwrap().len(), 0);
    assert_eq!(read_xyz("0\n").unwrap().len(), 0);
    assert_eq!(read_xyz("0\ncomment").unwrap().len(), 0);
    assert_eq!(read_xyz("1").err(), Some(CintError::AtomCountMismatch));
}

#[test]
fn comment_line_is_ignored() {
    let atoms = read_xyz("1\nXx 1 2 3 4 5 not an atom\nHe 1 2 3").unwrap();
    assert_eq!(atoms.len(), 1);
    assert_eq!(atoms[0].nuc, 2);
}

#[test]
fn unknown_symbol_is_refused() {
    assert_eq!(read_xyz("1\n\nXx 0 0 0").err(), Some(CintError::UnknownElementSymbol));
    assert_eq!(read_xyz("2\n\nH 0 0 0\n\nH 0 0 1").err(), Some(CintError::UnknownElementSymbol));
    assert_eq!(read_xyz("1\n\n1 0 0 0").err(), Some(CintError::UnknownElementSymbol));
}

#[test]
fn first_faulty_line_decides() {
    assert_eq!(read_xyz("9\n\nH 0 0 0 0\nXx 0 0 0").err(), Some(CintError::NumericParse));
    assert_eq!(read_xyz("9\n\nXx 0 0 0\nH 0 0 0 0").err(), Some(CintError::UnknownElementSymbol));
}

#[test]
fn more_than_three_coordinate_fields_are_refused() {
    assert_eq!(read_xyz("1\n\nH 0 0 0 0").err(), Some(CintError::NumericParse));
}

#[test]
fn fields_are_split_at_any_white_space() {
    let atoms = read_xyz("1\n\n\tH\t1.5 \x0b 2.5\x0c3.5  \r\n").unwrap();
    assert_eq!(atoms[0].nuc, 1);
    assert_eq!(fields_of(&atoms[0]), vec!["1.5", "2.5", "3.5"]);
}

#[test]
fn coordinates_are_read_field_by_field() {
    let atom = XyzAtom { nuc: 1, fields: vec![b"1.0".to_vec(), b"-2.0".to_vec()] };
    let triple = atom.coordinates(&read_angstrom).unwrap();
    assert_eq!(f64::from_bits(triple[0]), 1.0 * (1.0 / AUTOAA));
    assert_eq!(f64::from_bits(triple[1]), -2.0 * (1.0 / AUTOAA));
    assert_eq!(triple[2], 0);
    let empty = XyzAtom { nuc: 1, fields: vec![] };
    assert_eq!(empty.coordinates(&read_angstrom).unwrap(), [0, 0, 0]);
}

#[test]
fn unreadable_coordinate_is_refused() {
    let atom = XyzAtom { nuc: 1, fields: vec![b"1.0".to_vec(), b"x".to_vec(), b"2.0".to_vec()] };
    assert_eq!(atom.coordinates(&read_angstrom).err(), Some(CintError::NumericParse));
}

#[test]
fn atoms_are_grouped_by_element_in_ascending_order() {
    let placed = vec![(8u8, [1, 1, 1]), (1u8, [2, 2, 2]), (8u8, [3, 3, 3]), (1u8, [4, 4, 4])];
    let groups = group_atoms(&placed, &None).unwrap();
    assert_eq!(groups.len(), 2);
    assert_eq!(*groups[0].charge_of(), 1);
    assert_eq!(groups[0].coordinates(), &vec![[2, 2, 2], [4, 4, 4]]);
    assert_eq!(*groups[1].charge_of(), 8);
    assert_eq!(groups[1].coordinates(), &vec![[1, 1, 1], [3, 3, 3]]);
    assert!(groups[0].basis().is_none());
    assert_eq!(*groups[0].nuc_mod_of(), 0);
    assert_eq!(*groups[0].zeta(), 0);
    assert_eq!(*groups[0].frac_charge(), 0);
}

#[test]
fn groups_take_the_bases_of_their_elements() {
    let placed = vec![(8u8, [1, 1, 1]), (1u8, [2, 2, 2])];
    let mut basis = BTreeMap::new();
    basis.insert(1u8, s_shell());
    basis.insert(8u8, vec![s_shell().remove(0), s_shell().remove(0)]);
    basis.insert(6u8, s_shell());
    let groups = group_atoms(&placed, &Some(basis)).unwrap();
    assert_eq!(groups[0].basis().as_ref().unwrap().len(), 1);
    assert_eq!(groups[1].basis().as_ref().unwrap().len(), 2);
}

#[test]
fn element_without_basis_is_refused() {
    let placed = vec![(8u8, [1, 1, 1]), (1u8, [2, 2, 2])];
    let mut basis = BTreeMap::new();
    basis.insert(1u8, s_shell());
    assert_eq!(group_atoms(&placed, &Some(basis)).err(), Some(CintError::MissingBasis));
}

#[test]
fn water_text_becomes_two_groups_in_atomic_units() {
    let groups = CintAtomGroup::from_xyz(WATER, None, &read_angstrom).unwrap();
    assert_eq!(groups.len(), 2);
    assert_eq!(*groups[0].charge_of(), 1);
    assert_eq!(*groups[1].charge_of(), 8);
    let h = groups[0].coordinates();
    assert_eq!(h.len(), 2);
    assert_eq!(f64::from_bits(h[0][0]), -0.5 * (1.0 / 0.52917726));
    assert_eq!(f64::from_bits(h[1][0]), 0.5 * (1.0 / 0.52917726));
    assert_eq!(f64::from_bits(h[0][1]), 0.0);
    let o = groups[1].coordinates();
    assert_eq!(o.len(), 1);
    assert_eq!(f64::from_bits(o[0][0]), 0.0);
}

#[test]
fn geometry_errors_pass_through() {
    assert_eq!(
        CintAtomGroup::from_xyz("2\n\nH 0 0 0", None, &read_angstrom).err(),
        Some(CintError::AtomCountMismatch)
    );
    assert_eq!(
        CintAtomGroup::from_xyz("1\n\nQq 0 0 0", None, &read_angstrom).err(),
        Some(CintError::UnknownElementSymbol)
    );
    assert_eq!(
        CintAtomGroup::from_xyz("1\n\nH 0 zero 0", None, &read_angstrom).err(),
        Some(CintError::NumericParse)
    );
    let mut basis = BTreeMap::new();
    basis.insert(8u8, s_shell());
    assert_eq!(
        CintAtomGroup::from_xyz("1\n\nH 0 0 0", Some(basis), &read_angstrom).err(),
        Some(CintError::MissingBasis)
    );
}
