use cint_data::cint::cdata::{CintBasis, CintDate};
use cint_data::cint::rawdata::{AtomGroup, CintAtomGroup, CGTO};
use cint_data::error::CintError;
use std::collections::BTreeMap;

fn shell(angl: Vec<u8>, nprim: usize) -> CGTO {
    let exp: Vec<u64> = (0..nprim).map(|p| (1.0 + p as f64).to_bits()).collect();
    let coeff = angl.iter().map(|_| exp.clone()).collect();
    CGTO { kappa_of: 0, angl, exp, coeff }
}

fn origin() -> [u64; 3] {
    [0, 0, 0]
}

fn dataset() -> CintDate {
    let groups = vec![
        CintAtomGroup::new(Some(vec![shell(vec![0], 3)]), 1, 0, 0, 0, vec![origin(), origin()]),
        CintAtomGroup::new(
            Some(vec![shell(vec![0], 3), shell(vec![0, 1], 3)]),
            8,
            0,
            0,
            0,
            vec![origin()],
        ),
    ];
    CintDate::new(groups).unwrap()
}

fn rec(atom_of: i32, ang_of: i32, ptr_exp: i32, ptr_coeff: i32) -> CintBasis {
    CintBasis {
        atom_of,
        ang_of,
        nprim_of: 3,
        nctr_of: 1,
        kappa_of: 0,
        ptr_exp,
        ptr_coeff,
        reserve_baslot: 0,
    }
}

#[test]
fn select_all_binds_every_template_to_its_atom() {
    let data = dataset();
    assert_eq!(
        data.gen_bas_all(),
        vec![
            rec(0, 0, 32, 35),
            rec(1, 0, 32, 35),
            rec(2, 0, 38, 41),
            rec(2, 0, 44, 47),
            rec(2, 1, 44, 50),
        ]
    );
}

#[test]
fn select_all_counts_the_sub_shells_of_every_atom() {
    let data = dataset();
    let mut expected = 0;
    for group in data.atom_groups().iter() {
        let shells: usize = group.basis().as_ref().unwrap().iter().map(|c| c.angl.len()).sum();
        let atoms = group.coordinates().len();
        expected += shells * atoms;
    }
    assert_eq!(expected, 5);
    assert_eq!(data.gen_bas_all().len(), expected);
}

#[test]
fn select_by_list_renumbers_to_the_position_in_the_list() {
    let data = dataset();
    assert_eq!(
        data.gen_bas(vec![2, 0]).unwrap(),
        vec![rec(0, 0, 38, 41), rec(0, 0, 44, 47), rec(0, 1, 44, 50), rec(1, 0, 32, 35)]
    );
}

#[test]
fn select_by_list_may_repeat_an_atom() {
    let data = dataset();
    assert_eq!(data.gen_bas(vec![1, 1]).unwrap(), vec![rec(0, 0, 32, 35), rec(1, 0, 32, 35)]);
}

#[test]
fn select_by_empty_list_is_empty() {
    let data = dataset();
    assert_eq!(data.gen_bas(vec![]).unwrap(), vec![]);
}

#[test]
fn select_by_list_refuses_an_unknown_atom() {
    let data = dataset();
    assert_eq!(data.gen_bas(vec![0, 3]).err(), Some(CintError::AtomIndexOutOfRange));
}

#[test]
fn select_by_map_walks_the_atoms_in_ascending_order() {
    let data = dataset();
    let mut which_bas = BTreeMap::new();
    which_bas.insert(2, vec![0]);
    which_bas.insert(0, vec![1, 0]);
    assert_eq!(
        data.gen_bas_select(which_bas).unwrap(),
        vec![
            rec(0, 0, 38, 41),
            rec(0, 0, 44, 47),
            rec(0, 1, 44, 50),
            rec(0, 0, 32, 35),
            rec(2, 0, 32, 35),
        ]
    );
}

#[test]
fn select_by_map_refuses_an_unknown_atom() {
    let data = dataset();
    let mut which_bas = BTreeMap::new();
    which_bas.insert(0, vec![0]);
    which_bas.insert(7, vec![0]);
    assert_eq!(data.gen_bas_select(which_bas).err(), Some(CintError::AtomIndexOutOfRange));
}

#[test]
fn select_by_empty_map_is_empty() {
    let data = dataset();
    assert_eq!(data.gen_bas_select(BTreeMap::new()).unwrap(), vec![]);
}

#[test]
fn selection_leaves_the_environment_alone() {
    let data = dataset();
    let before = data.env().as_slice().to_vec();
    let _ = data.gen_bas_all();
    let _ = data.gen_bas(vec![0]);
    assert_eq!(data.env().as_slice(), &before[..]);
    assert_eq!(data.natm(), 3);
}
