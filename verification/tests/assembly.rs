use cint_data::cint::binary64::to_i32;
use cint_data::cint::cdata::{CintAtom, CintBasis, CintDate};
use cint_data::cint::layout::{ANG_MAX, ATM_SLOT, PTR_ENV_START};
use cint_data::cint::rawdata::{AtomGroup, CintAtomGroup, CGTO};
use cint_data::error::CintError;

fn bits(values: &[f64]) -> Vec<u64> {
    values.iter().map(|x| x.to_bits()).collect()
}

fn point(x: f64, y: f64, z: f64) -> [u64; 3] {
    [x.to_bits(), y.to_bits(), z.to_bits()]
}

fn hydrogen_basis() -> Vec<CGTO> {
    vec![CGTO {
        kappa_of: 0,
        angl: vec![0],
        exp: bits(&[3.42525091, 0.62391373, 0.16885540]),
        coeff: vec![bits(&[0.15432897, 0.53532814, 0.44463454])],
    }]
}

fn oxygen_basis() -> Vec<CGTO> {
    vec![
        CGTO {
            kappa_of: 0,
            angl: vec![0],
            exp: bits(&[130.70932, 23.808861, 6.4436083]),
            coeff: vec![bits(&[0.15432897, 0.53532814, 0.44463454])],
        },
        CGTO {
            kappa_of: 0,
            angl: vec![0, 1],
            exp: bits(&[5.0331513, 1.1695961, 0.3803890]),
            coeff: vec![
                bits(&[-0.09996723, 0.39951283, 0.70011547]),
                bits(&[0.15591627, 0.60768372, 0.39195739]),
            ],
        },
    ]
}

fn water() -> Vec<CintAtomGroup> {
    vec![
        CintAtomGroup::new(
            Some(hydrogen_basis()),
            1,
            0,
            0.0f64.to_bits(),
            0.0f64.to_bits(),
            vec![point(-0.9448630622825309, 0.0, 0.0), point(0.9448630622825309, 0.0, 0.0)],
        ),
        CintAtomGroup::new(
            Some(oxygen_basis()),
            8,
            0,
            0.25f64.to_bits(),
            0.0f64.to_bits(),
            vec![point(0.0, 0.0, 0.0)],
        ),
    ]
}

fn template(ang_of: i32, ptr_exp: i32, ptr_coeff: i32) -> CintBasis {
    CintBasis {
        atom_of: -1,
        ang_of,
        nprim_of: 3,
        nctr_of: 1,
        kappa_of: 0,
        ptr_exp,
        ptr_coeff,
        reserve_baslot: 0,
    }
}

#[test]
fn water_is_assemblable() {
    assert!(CintDate::can_assemble(&water()));
}

#[test]
fn environment_length_is_header_atoms_and_bases() {
    let data = CintDate::new(water()).unwrap();
    // 20 header slots, 4 per atom, 3 * (1 + 1) for each s group, 3 * (2 + 1) for the sp group
    assert_eq!(data.env().as_slice().len(), 20 + 4 * 3 + 6 + 6 + 9);
    assert_eq!(PTR_ENV_START, 20);
    assert_eq!(ATM_SLOT, 4);
}

#[test]
fn header_is_zeroed() {
    let data = CintDate::new(water()).unwrap();
    assert!(data.env().as_slice()[..20].iter().all(|x| *x == 0));
}

#[test]
fn atom_records_name_their_slots() {
    let data = CintDate::new(water()).unwrap();
    let atm = data.atm();
    assert_eq!(atm.len(), 3);
    assert_eq!(
        atm[0],
        CintAtom { charge_of: 1, coord: 20, nuc_mod_of: 0, zeta: 23, frac_charge: 0, reserve_atmslot: 0 }
    );
    assert_eq!(
        atm[1],
        CintAtom { charge_of: 1, coord: 24, nuc_mod_of: 0, zeta: 27, frac_charge: 0, reserve_atmslot: 0 }
    );
    assert_eq!(
        atm[2],
        CintAtom { charge_of: 8, coord: 28, nuc_mod_of: 0, zeta: 31, frac_charge: 0, reserve_atmslot: 0 }
    );
}

#[test]
fn atom_offsets_round_trip() {
    let groups = water();
    let data = CintDate::new(water()).unwrap();
    let env = data.env().as_slice();
    let mut a = 0;
    for group in groups.iter() {
        for xyz in group.coordinates().iter() {
            let rec = data.atm()[a];
            assert_eq!(env[rec.coord as usize], xyz[0]);
            assert_eq!(env[rec.coord as usize + 1], xyz[1]);
            assert_eq!(env[rec.coord as usize + 2], xyz[2]);
            assert_eq!(env[rec.zeta as usize], *group.zeta());
            a += 1;
        }
    }
    assert_eq!(a, 3);
    assert_eq!(f64::from_bits(env[31]), 0.25);
    assert_eq!(f64::from_bits(env[20]), -0.9448630622825309);
}

#[test]
fn basis_templates_have_lockstep_offsets() {
    let data = CintDate::new(water()).unwrap();
    let templates = data.basis_template();
    assert_eq!(templates.len(), 2);
    assert_eq!(templates[0], vec![template(0, 32, 35)]);
    assert_eq!(templates[1], vec![template(0, 38, 41), template(0, 44, 47), template(1, 44, 50)]);
}

#[test]
fn basis_offsets_round_trip() {
    let groups = water();
    let data = CintDate::new(water()).unwrap();
    let env = data.env().as_slice();
    for (g, group) in groups.iter().enumerate() {
        let basis = group.basis().as_ref().unwrap();
        let mut r = 0;
        for cgto in basis.iter() {
            for i in 0..cgto.angl.len() {
                let rec = data.basis_template()[g][r];
                assert_eq!(rec.atom_of, -1);
                assert_eq!(rec.ang_of, cgto.angl[i] as i32);
                assert_eq!(rec.nprim_of as usize, cgto.exp.len());
                assert_eq!(rec.nctr_of, 1);
                for p in 0..cgto.exp.len() {
                    assert_eq!(env[rec.ptr_exp as usize + p], cgto.exp[p]);
                    assert_eq!(env[rec.ptr_coeff as usize + p], cgto.coeff[i][p]);
                }
                r += 1;
            }
        }
        assert_eq!(r, data.basis_template()[g].len());
    }
}

#[test]
fn atom_to_basis_mapping_repeats_the_group() {
    let data = CintDate::new(water()).unwrap();
    assert_eq!(data.atmbas_index(), &vec![0, 0, 1]);
}

#[test]
fn dataset_keeps_its_groups() {
    let data = CintDate::new(water()).unwrap();
    let kept = data.atom_groups();
    assert_eq!(kept.len(), 2);
    assert_eq!(*kept[1].charge_of(), 8);
    assert_eq!(kept[0].coordinates().len(), 2);
    assert_eq!(kept[1].basis().as_ref().unwrap()[1].angl, vec![0, 1]);
}

#[test]
fn group_without_basis_is_refused() {
    let mut groups = water();
    groups.push(CintAtomGroup::new(None, 6, 0, 0, 0, vec![point(1.0, 1.0, 1.0)]));
    assert_eq!(CintDate::new(groups).err(), Some(CintError::MissingBasis));
}

#[test]
fn angular_momentum_at_the_maximum_is_refused() {
    let mut basis = hydrogen_basis();
    basis[0].angl = vec![ANG_MAX];
    let groups = vec![CintAtomGroup::new(Some(basis), 1, 0, 0, 0, vec![point(0.0, 0.0, 0.0)])];
    assert_eq!(CintDate::new(groups).err(), Some(CintError::AngularMomentumOutOfRange));
}

#[test]
fn angular_momentum_below_the_maximum_is_taken() {
    let mut basis = hydrogen_basis();
    basis[0].angl = vec![ANG_MAX - 1];
    let groups = vec![CintAtomGroup::new(Some(basis), 1, 0, 0, 0, vec![point(0.0, 0.0, 0.0)])];
    let data = CintDate::new(groups).unwrap();
    assert_eq!(data.basis_template()[0][0].ang_of, 14);
}

#[test]
fn missing_basis_comes_before_angular_momentum() {
    let mut basis = hydrogen_basis();
    basis[0].angl = vec![200];
    let groups = vec![
        CintAtomGroup::new(Some(basis), 1, 0, 0, 0, vec![point(0.0, 0.0, 0.0)]),
        CintAtomGroup::new(None, 2, 0, 0, 0, vec![]),
    ];
    assert_eq!(CintDate::new(groups).err(), Some(CintError::MissingBasis));
}

#[test]
fn ill_formed_basis_cannot_be_assembled() {
    let mut basis = hydrogen_basis();
    basis[0].coeff[0].pop();
    assert!(!basis[0].is_wf());
    let groups = vec![CintAtomGroup::new(Some(basis), 1, 0, 0, 0, vec![point(0.0, 0.0, 0.0)])];
    assert!(!CintDate::can_assemble(&groups));
}

#[test]
fn no_groups_give_the_bare_header() {
    let groups: Vec<CintAtomGroup> = Vec::new();
    let data = CintDate::new(groups).unwrap();
    assert_eq!(data.env().as_slice().len(), 20);
    assert!(data.atm().is_empty());
    assert!(data.gen_bas_all().is_empty());
}

#[test]
fn header_slots_can_be_rewritten() {
    let mut data = CintDate::new(water()).unwrap();
    let before: Vec<u64> = data.env().as_slice().to_vec();
    *data.env_mut().expcutoff() = 60.0f64.to_bits();
    data.env_mut().common_orig()[1] = 1.5f64.to_bits();
    data.env_mut().rinv_orig()[2] = 2.5f64.to_bits();
    *data.env_mut().rinv_zeta() = 7.0f64.to_bits();
    *data.env_mut().range_omega() = 8.0f64.to_bits();
    *data.env_mut().f12_zeta() = 9.0f64.to_bits();
    *data.env_mut().gtg_zeta() = 10.0f64.to_bits();
    *data.env_mut().ngrids() = 11.0f64.to_bits();
    data.env_mut().grids()[0] = 12.0f64.to_bits();
    assert_eq!(data.env_mut().grids().len(), 8);
    let after = data.env().as_slice();
    assert_eq!(f64::from_bits(after[0]), 60.0);
    assert_eq!(f64::from_bits(after[2]), 1.5);
    assert_eq!(f64::from_bits(after[6]), 2.5);
    assert_eq!(f64::from_bits(after[7]), 7.0);
    assert_eq!(f64::from_bits(after[8]), 8.0);
    assert_eq!(f64::from_bits(after[9]), 9.0);
    assert_eq!(f64::from_bits(after[10]), 10.0);
    assert_eq!(f64::from_bits(after[11]), 11.0);
    assert_eq!(f64::from_bits(after[12]), 12.0);
    assert_eq!(&after[20..], &before[20..]);
}

#[test]
fn atom_slots_of_the_environment() {
    let mut data = CintDate::new(water()).unwrap();
    let slots = data.env_mut().atom(2);
    assert_eq!(slots.len(), 4);
    assert_eq!(f64::from_bits(slots[3]), 0.25);
    slots[0] = 1.0f64.to_bits();
    assert_eq!(f64::from_bits(data.env().as_slice()[28]), 1.0);
}

#[test]
fn empty_records_are_all_zero() {
    assert_eq!(CintAtom::empty().to_slots(), [0; 6]);
    assert_eq!(CintBasis::empty().to_slots(), [0; 8]);
}

#[test]
fn records_keep_the_foreign_field_order() {
    let atom = CintAtom { charge_of: 1, coord: 2, nuc_mod_of: 3, zeta: 4, frac_charge: 5, reserve_atmslot: 6 };
    assert_eq!(atom.to_slots(), [1, 2, 3, 4, 5, 6]);
    let basis = CintBasis {
        atom_of: 1,
        ang_of: 2,
        nprim_of: 3,
        nctr_of: 4,
        kappa_of: 5,
        ptr_exp: 6,
        ptr_coeff: 7,
        reserve_baslot: 8,
    };
    assert_eq!(basis.to_slots(), [1, 2, 3, 4, 5, 6, 7, 8]);
}

#[test]
fn template_record_of_a_sub_shell() {
    let cgto = &oxygen_basis()[1];
    let rec = cgto.gen_bas(1, 44, 50);
    assert_eq!(rec, template(1, 44, 50));
    let mut kappa = oxygen_basis().remove(0);
    kappa.kappa_of = -2;
    assert_eq!(kappa.gen_bas(0, 1, 2).kappa_of, -2);
}

#[test]
fn fractional_charge_is_truncated_into_the_record() {
    let group = CintAtomGroup::new(
        Some(hydrogen_basis()),
        1,
        2,
        0.5f64.to_bits(),
        (-2.75f64).to_bits(),
        vec![point(0.0, 0.0, 0.0)],
    );
    let data = CintDate::new(vec![group]).unwrap();
    assert_eq!(data.atm()[0].frac_charge, -2);
    assert_eq!(data.atm()[0].nuc_mod_of, 2);
}

#[test]
fn truncation_agrees_with_the_cast() {
    let samples = [
        0.0,
        -0.0,
        0.5,
        -0.5,
        0.999999,
        1.0,
        -1.0,
        1.5,
        2.75,
        -2.75,
        123456.789,
        -123456.789,
        2147483646.5,
        2147483647.0,
        2147483648.0,
        -2147483648.0,
        -2147483648.5,
        -2147483649.0,
        1e300,
        -1e300,
        5e-324,
        f64::INFINITY,
        f64::NEG_INFINITY,
        f64::NAN,
        f64::MAX,
        f64::MIN_POSITIVE,
    ];
    for x in samples.iter() {
        assert_eq!(to_i32(x.to_bits()), *x as i32, "{}", x);
    }
    assert_eq!(to_i32(2.75f64.to_bits()), 2);
    assert_eq!(to_i32(f64::NAN.to_bits()), 0);
    assert_eq!(to_i32(1e300f64.to_bits()), i32::MAX);
    assert_eq!(to_i32((-1e300f64).to_bits()), i32::MIN);
}

#[test]
fn atom_group_accessors_read_and_write() {
    let mut group = CintAtomGroup::new(None, 1, 0, 0, 0, vec![point(0.0, 0.0, 0.0)]);
    *group.basis_mut() = Some(hydrogen_basis());
    *group.charge_of_mut() = 2;
    *group.nuc_mod_of_mut() = 1;
    *group.zeta_mut() = 1.5f64.to_bits();
    *group.frac_charge_mut() = 0.5f64.to_bits();
    group.coordinates_mut().push(point(1.0, 2.0, 3.0));
    assert_eq!(group.basis().as_ref().unwrap().len(), 1);
    assert_eq!(*group.charge_of(), 2);
    assert_eq!(*group.nuc_mod_of(), 1);
    assert_eq!(f64::from_bits(*group.zeta()), 1.5);
    assert_eq!(f64::from_bits(*group.frac_charge()), 0.5);
    assert_eq!(group.coordinates().len(), 2);
    let copy = CintAtomGroup::from_other_group(&group);
    assert_eq!(*copy.charge_of(), 2);
    assert_eq!(copy.coordinates()[1], point(1.0, 2.0, 3.0));
    assert_eq!(copy.basis().as_ref().unwrap()[0].exp, hydrogen_basis()[0].exp);
    let again = copy.clone();
    assert_eq!(again.coordinates(), copy.coordinates());
}

fn numbered_shell(tag: u64, angl: Vec<u8>, nprim: usize) -> CGTO {
    let exp: Vec<u64> = (0..nprim).map(|p| (1000 * tag + p as u64) as f64).map(f64::to_bits).collect();
    let coeff: Vec<Vec<u64>> = (0..angl.len())
        .map(|i| {
            (0..nprim)
                .map(|p| (1000 * tag + 100 * (i as u64 + 1) + p as u64) as f64 + 0.5)
                .map(f64::to_bits)
                .collect()
        })
        .collect();
    CGTO { kappa_of: tag as i8, angl, exp, coeff }
}

fn check_round_trip(groups: Vec<CintAtomGroup>) {
    assert!(CintDate::can_assemble(&groups));
    let data = CintDate::new(groups.clone()).unwrap();
    let env = data.env().as_slice();
    let natm: usize = groups.iter().map(|g| g.coordinates().len()).sum();
    let mut basis_slots = 0;
    for group in groups.iter() {
        for cgto in group.basis().as_ref().unwrap().iter() {
            basis_slots += cgto.exp.len() + cgto.exp.len() * cgto.angl.len();
        }
    }
    assert_eq!(env.len(), 20 + 4 * natm + basis_slots);
    assert_eq!(data.atm().len(), natm);
    assert_eq!(data.atmbas_index().len(), natm);
    assert_eq!(data.basis_template().len(), groups.len());
    let mut a = 0;
    let mut selected = 0;
    for (g, group) in groups.iter().enumerate() {
        for xyz in group.coordinates().iter() {
            let rec = data.atm()[a];
            assert_eq!(rec.coord as usize, 20 + 4 * a);
            assert_eq!(rec.zeta, rec.coord + 3);
            assert_eq!(rec.charge_of, *group.charge_of() as i32);
            assert_eq!(&env[rec.coord as usize..rec.coord as usize + 3], &xyz[..]);
            assert_eq!(env[rec.zeta as usize], *group.zeta());
            assert_eq!(data.atmbas_index()[a], g);
            a += 1;
        }
        let mut r = 0;
        for cgto in group.basis().as_ref().unwrap().iter() {
            for i in 0..cgto.angl.len() {
                let rec = data.basis_template()[g][r];
                assert_eq!(rec.atom_of, -1);
                assert_eq!(rec.ang_of, cgto.angl[i] as i32);
                assert_eq!(rec.kappa_of, cgto.kappa_of as i32);
                assert_eq!(rec.nprim_of as usize, cgto.exp.len());
                let at = rec.ptr_exp as usize;
                assert_eq!(&env[at..at + cgto.exp.len()], &cgto.exp[..]);
                let at = rec.ptr_coeff as usize;
                assert_eq!(&env[at..at + cgto.exp.len()], &cgto.coeff[i][..]);
                r += 1;
            }
        }
        assert_eq!(r, data.basis_template()[g].len());
        selected += r * group.coordinates().len();
    }
    assert_eq!(data.gen_bas_all().len(), selected);
}

#[test]
fn offsets_round_trip_over_many_shapes() {
    let shapes: Vec<Vec<(Vec<u8>, usize)>> = vec![
        vec![],
        vec![(vec![0], 1)],
        vec![(vec![0], 3), (vec![0, 1], 3)],
        vec![(vec![], 2), (vec![2], 0), (vec![1, 1, 3], 2)],
        vec![(vec![0, 1, 2, 3], 5), (vec![4], 1), (vec![0], 6)],
    ];
    let mut tag = 0;
    for first in shapes.iter() {
        for second in shapes.iter() {
            for atoms in 0..3usize {
                let mut groups = Vec::new();
                for (charge, shape) in [(1u8, first), (8u8, second)] {
                    let basis: Vec<CGTO> = shape
                        .iter()
                        .map(|(angl, nprim)| {
                            tag += 1;
                            numbered_shell(tag % 100, angl.clone(), *nprim)
                        })
                        .collect();
                    let coordinates = (0..atoms + charge as usize % 2)
                        .map(|j| point(j as f64, charge as f64, -1.0))
                        .collect();
                    groups.push(CintAtomGroup::new(
                        Some(basis),
                        charge,
                        0,
                        (charge as f64).to_bits(),
                        0,
                        coordinates,
                    ));
                }
                check_round_trip(groups);
            }
        }
    }
}

#[test]
fn dataset_copy_holds_the_same() {
    let data = CintDate::new(water()).unwrap();
    let copy = data.clone();
    assert_eq!(copy.atm(), data.atm());
    assert_eq!(copy.basis_template(), data.basis_template());
    assert_eq!(copy.atmbas_index(), data.atmbas_index());
    assert_eq!(copy.env().as_slice(), data.env().as_slice());
}
