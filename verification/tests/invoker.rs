use cint_data::cint::cdata::{CintAtom, CintBasis, CintDate};
use cint_data::cint::intor::{checked_len, flatten_atoms, flatten_basis, IntorResult};
use cint_data::cint::rawdata::{CintAtomGroup, CGTO};
use cint_data::error::CintError;
use std::collections::BTreeMap;

fn shell(angl: Vec<u8>, nprim: usize) -> CGTO {
    let exp: Vec<u64> = (0..nprim).map(|p| (1.0 + p as f64).to_bits()).collect();
    let coeff = angl.iter().map(|_| exp.clone()).collect();
    CGTO { kappa_of: 0, angl, exp, coeff }
}

fn dataset() -> CintDate {
    let groups = vec![
        CintAtomGroup::new(Some(vec![shell(vec![0], 3)]), 1, 0, 0, 0, vec![[0, 0, 0], [0, 0, 0]]),
        CintAtomGroup::new(
            Some(vec![shell(vec![0], 3), shell(vec![1, 2], 3)]),
            8,
            0,
            0,
            0,
            vec![[0, 0, 0]],
        ),
    ];
    CintDate::new(groups).unwrap()
}

fn cart(i: i32, bas: &Vec<i32>) -> i32 {
    let l = bas[8 * i as usize + 1];
    (l + 1) * (l + 2) / 2 * bas[8 * i as usize + 3]
}

fn spheric(i: i32, bas: &Vec<i32>) -> i32 {
    (2 * bas[8 * i as usize + 1] + 1) * bas[8 * i as usize + 3]
}

fn spinor(i: i32, bas: &Vec<i32>) -> i32 {
    let l = bas[8 * i as usize + 1];
    let kappa = bas[8 * i as usize + 4];
    let len = if kappa == 0 {
        4 * l + 2
    } else if kappa < 0 {
        2 * l + 2
    } else {
        2 * l
    };
    len * bas[8 * i as usize + 3]
}

fn counting(
    out: Vec<u64>,
    _dims: &Vec<i32>,
    _shls: &[i32; 2],
    _atm: &Vec<i32>,
    _natm: i32,
    _bas: &Vec<i32>,
    _nbas: i32,
    _env: &[u64],
) -> Vec<u64> {
    (0..out.len()).map(|i| (i as f64).to_bits()).collect()
}

#[test]
fn extents_are_asked_once_per_basis_record() {
    let data = dataset();
    let intor = data.gen_intor_all(&cart, &spheric, &spinor);
    assert_eq!(intor.natm(), 3);
    assert_eq!(intor.nbas(), 5);
    assert_eq!(intor.dims_cart(), &vec![1, 1, 1, 3, 6]);
    assert_eq!(intor.dims_spheric(), &vec![1, 1, 1, 3, 5]);
    assert_eq!(intor.dims_spinor(), &vec![2, 2, 2, 6, 10]);
}

#[test]
fn shape_queries_see_the_index_and_the_flat_records() {
    let data = dataset();
    let echo = |i: i32, bas: &Vec<i32>| 1000 * i + bas.len() as i32;
    let intor = data.gen_intor_all(&echo, &echo, &echo);
    assert_eq!(intor.dims_cart(), &vec![40, 1040, 2040, 3040, 4040]);
}

#[test]
fn invoker_holds_the_records_of_the_dataset() {
    let data = dataset();
    let intor = data.gen_intor_all(&cart, &spheric, &spinor);
    assert_eq!(intor.atm(), data.atm());
    assert_eq!(intor.bas(), &data.gen_bas_all());
    assert_eq!(intor.env().as_slice(), data.env().as_slice());
    assert_eq!(intor.atm_slots().len(), 6 * 3);
    assert_eq!(intor.bas_slots().len(), 8 * 5);
    assert_eq!(&intor.atm_slots()[6..12], &[1, 24, 0, 27, 0, 0]);
    assert_eq!(&intor.bas_slots()[32..40], &[2, 2, 3, 1, 0, 44, 50, 0]);
}

#[test]
fn invokers_for_a_selection_cover_every_atom() {
    let data = dataset();
    let all = data.gen_intor_all(&cart, &spheric, &spinor);
    let listed = data.gen_intor(vec![0, 2], &cart, &spheric, &spinor);
    let mut which_bas = BTreeMap::new();
    which_bas.insert(0, vec![0]);
    which_bas.insert(2, vec![0]);
    let mapped = data.gen_intor_select(which_bas, &cart, &spheric, &spinor);
    assert_eq!(listed.bas(), all.bas());
    assert_eq!(mapped.bas(), all.bas());
    assert_eq!(listed.dims_cart(), all.dims_cart());
    assert_eq!(mapped.nbas(), 5);
}

#[test]
fn flat_arrays_hold_the_records_slot_by_slot() {
    let atoms = vec![
        CintAtom { charge_of: 1, coord: 20, nuc_mod_of: 0, zeta: 23, frac_charge: 0, reserve_atmslot: 0 },
        CintAtom { charge_of: 8, coord: 24, nuc_mod_of: 2, zeta: 27, frac_charge: 1, reserve_atmslot: 0 },
    ];
    assert_eq!(flatten_atoms(&atoms), vec![1, 20, 0, 23, 0, 0, 8, 24, 2, 27, 1, 0]);
    let basis = vec![CintBasis {
        atom_of: 1,
        ang_of: 2,
        nprim_of: 3,
        nctr_of: 1,
        kappa_of: -1,
        ptr_exp: 28,
        ptr_coeff: 31,
        reserve_baslot: 0,
    }];
    assert_eq!(flatten_basis(&basis), vec![1, 2, 3, 1, -1, 28, 31, 0]);
    assert_eq!(flatten_basis(&Vec::new()), Vec::<i32>::new());
}

#[test]
fn evaluation_shapes_the_tensor_by_the_shells() {
    let data = dataset();
    let intor = data.gen_intor_all(&cart, &spheric, &spinor);
    let result = intor.int_cart([3, 4], Some(counting)).unwrap();
    assert_eq!(result.dims(), &vec![3, 6]);
    assert_eq!(result.out().len(), 18);
    assert_eq!(f64::from_bits(*result.index(vec![2, 1])), 13.0);
    assert_eq!(f64::from_bits(*result.index(vec![0, 0])), 0.0);
    assert_eq!(f64::from_bits(*result.index(vec![2, 5])), 17.0);
}

#[test]
fn kernel_receives_a_zeroed_buffer_and_the_request() {
    let data = dataset();
    let intor = data.gen_intor_all(&cart, &spheric, &spinor);
    let atoms = intor.atm_slots().clone();
    let records = intor.bas_slots().clone();
    let buffer = data.env().as_slice().to_vec();
    let kernel = |out: Vec<u64>,
                  dims: &Vec<i32>,
                  shls: &[i32; 3],
                  atm: &Vec<i32>,
                  natm: i32,
                  bas: &Vec<i32>,
                  nbas: i32,
                  env: &[u64]| {
        assert_eq!(out, vec![0u64; 18]);
        assert_eq!(dims, &vec![6, 1, 3]);
        assert_eq!(shls, &[4, 0, 3]);
        assert_eq!(atm, &atoms);
        assert_eq!(natm, 3);
        assert_eq!(atm.len(), 6 * 3);
        assert_eq!(bas, &records);
        assert_eq!(nbas, 5);
        assert_eq!(bas.len(), 8 * 5);
        assert_eq!(env, &buffer[..]);
        out
    };
    let result = intor.int_cart([4, 0, 3], Some(kernel)).unwrap();
    assert_eq!(result.out(), &vec![0u64; 18]);
}

#[test]
fn evaluation_without_a_kernel_is_refused() {
    let data = dataset();
    let intor = data.gen_intor_all(&cart, &spheric, &spinor);
    let none: Option<
        fn(Vec<u64>, &Vec<i32>, &[i32; 2], &Vec<i32>, i32, &Vec<i32>, i32, &[u64]) -> Vec<u64>,
    > = None;
    assert_eq!(intor.int_cart([0, 2], none).err(), Some(CintError::NullKernel));
}

#[test]
fn cartesian_extents_of_shells() {
    let data = dataset();
    let intor = data.gen_intor_all(&cart, &spheric, &spinor);
    assert_eq!(intor.cart_dims(&[4, 4, 0, 3]), vec![6, 6, 1, 3]);
    assert_eq!(intor.cart_dims(&[]), Vec::<i32>::new());
}

#[test]
fn row_major_offset_of_two_axes() {
    let out: Vec<u64> = (0..12u64).collect();
    let tensor: IntorResult<2> = IntorResult::new(vec![3, 4], out);
    assert_eq!(tensor.offset(&vec![2, 1]), 9);
    assert_eq!(*tensor.index(vec![2, 1]), 9);
    assert_eq!(tensor.offset(&vec![0, 0]), 0);
    assert_eq!(tensor.offset(&vec![2, 3]), 11);
}

#[test]
fn row_major_offset_of_four_axes() {
    let out: Vec<u64> = (0..120u64).collect();
    let tensor: IntorResult<4> = IntorResult::new(vec![2, 3, 4, 5], out);
    assert_eq!(tensor.offset(&vec![1, 2, 3, 4]), 119);
    assert_eq!(tensor.offset(&vec![1, 0, 2, 3]), 60 + 10 + 3);
    assert_eq!(*tensor.index(vec![0, 1, 0, 0]), 20);
}

#[test]
fn row_major_offsets_are_distinct_and_cover_the_tensor() {
    let tensor: IntorResult<3> = IntorResult::new(vec![2, 3, 4], vec![0; 24]);
    let mut seen = vec![false; 24];
    for i in 0..2 {
        for j in 0..3 {
            for k in 0..4 {
                let at = tensor.offset(&vec![i, j, k]);
                assert!(!seen[at]);
                seen[at] = true;
            }
        }
    }
    assert!(seen.iter().all(|s| *s));
}

#[test]
fn tensor_length_is_the_product_of_the_extents() {
    assert_eq!(checked_len(&vec![3, 4]), Some(12));
    assert_eq!(checked_len(&vec![]), Some(1));
    assert_eq!(checked_len(&vec![5, 0, 7]), Some(0));
    assert_eq!(checked_len(&vec![i32::MAX, i32::MAX, 0]), Some(0));
    assert_eq!(checked_len(&vec![3, -1]), None);
    assert_eq!(checked_len(&vec![0, -1]), None);
    assert_eq!(checked_len(&vec![i32::MAX, i32::MAX, i32::MAX, i32::MAX, i32::MAX]), None);
    assert_eq!(checked_len(&vec![i32::MAX, 2]), Some(2 * (i32::MAX as usize)));
}

#[test]
fn tensor_keeps_what_it_was_given() {
    let tensor: IntorResult<1> = IntorResult::new(vec![2], vec![7, 8]);
    let copy = tensor.clone();
    assert_eq!(copy.dims(), &vec![2]);
    assert_eq!(copy.out(), &vec![7, 8]);
}

#[test]
fn checked_access_tells_what_the_tensor_holds() {
    let out: Vec<u64> = (0..12u64).collect();
    let tensor: IntorResult<2> = IntorResult::new(vec![3, 4], out);
    assert_eq!(tensor.get(&vec![2, 1]), Some(&9));
    assert_eq!(tensor.get(&vec![2, 3]), Some(&11));
    assert_eq!(tensor.get(&vec![3, 0]), None);
    assert_eq!(tensor.get(&vec![0, 4]), None);
    assert_eq!(tensor.get(&vec![0]), None);
    assert_eq!(tensor.get(&vec![0, 0, 0]), None);
    assert_eq!(tensor.get(&vec![usize::MAX, usize::MAX]), None);
    let short: IntorResult<2> = IntorResult::new(vec![3, 4], vec![1, 2, 3]);
    assert_eq!(short.get(&vec![0, 2]), Some(&3));
    assert_eq!(short.get(&vec![0, 3]), None);
    let wide: IntorResult<3> = IntorResult::new(vec![i32::MAX, i32::MAX, i32::MAX], vec![5]);
    assert_eq!(wide.get(&vec![0, 0, 0]), Some(&5));
    assert_eq!(wide.get(&vec![2147483646, 2147483646, 2147483646]), None);
    let negative: IntorResult<1> = IntorResult::new(vec![-1], vec![5]);
    assert_eq!(negative.get(&vec![0]), None);
}
