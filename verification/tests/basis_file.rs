use cint_data::cint::cdata::{assign_bases, CintDate};
use cint_data::cint::rawdata::{AtomGroup, CintAtomGroup, GetCGTO, CGTO};
use cint_data::error::CintError;
use cint_data::io::basis::json::{ElectronShells, Elements, JsonBasis};
use std::collections::HashMap;

fn strings(values: &[&str]) -> Vec<String> {
    values.iter().map(|s| s.to_string()).collect()
}

fn parse(text: &String) -> Option<u64> {
    text.parse::<f64>().ok().map(|x| x.to_bits())
}

fn factor(l: u8, e: f64) -> f64 {
    (l as f64 + 2.0) * e
}

fn scale(l: u8, e: u64, c: u64) -> u64 {
    (f64::from_bits(c) * factor(l, f64::from_bits(e))).to_bits()
}

fn read_angstrom(field: &Vec<u8>) -> Option<u64> {
    let text = std::str::from_utf8(field).ok()?;
    let x: f64 = text.parse().ok()?;
    Some((x * (1.0 / 0.52917726)).to_bits())
}

fn floats(bits: &Vec<u64>) -> Vec<f64> {
    bits.iter().map(|b| f64::from_bits(*b)).collect()
}

fn s_shell(exponents: &[&str], coefficients: &[&str]) -> ElectronShells {
    ElectronShells::new(
        "gto".to_string(),
        "".to_string(),
        vec![0],
        strings(exponents),
        vec![strings(coefficients)],
    )
}

fn sp_shell() -> ElectronShells {
    ElectronShells::new(
        "gto".to_string(),
        "valence".to_string(),
        vec![0, 1],
        strings(&["0.5033151319E+01", "0.1169596125E+01", "0.3803889600E+00"]),
        vec![
            strings(&["-0.9996722919E-01", "0.3995128261E+00", "0.7001154689E+00"]),
            strings(&["0.1559162750E+00", "0.6076837186E+00", "0.3919573931E+00"]),
        ],
    )
}

fn hydrogen() -> Elements {
    Elements::new(
        strings(&["reference"]),
        vec![s_shell(
            &["0.3425250914E+01", "0.6239137298E+00", "0.1688554040E+00"],
            &["0.1543289673E+00", "0.5353281423E+00", "0.4446345422E+00"],
        )],
    )
}

fn oxygen() -> Elements {
    Elements::new(
        strings(&["reference"]),
        vec![
            s_shell(
                &["0.1307093214E+03", "0.2380886605E+02", "0.6443608313E+01"],
                &["0.1543289673E+00", "0.5353281423E+00", "0.4446345422E+00"],
            ),
            sp_shell(),
        ],
    )
}

fn sto3g() -> JsonBasis {
    let mut elements = HashMap::new();
    elements.insert(1u8, hydrogen());
    elements.insert(8u8, oxygen());
    JsonBasis::new(
        "complete".to_string(),
        "0.1".to_string(),
        "STO-3G".to_string(),
        "".to_string(),
        elements,
    )
}

fn cart(i: i32, bas: &Vec<i32>) -> i32 {
    let l = bas[8 * i as usize + 1];
    (l + 1) * (l + 2) / 2 * bas[8 * i as usize + 3]
}

fn spheric(i: i32, bas: &Vec<i32>) -> i32 {
    (2 * bas[8 * i as usize + 1] + 1) * bas[8 * i as usize + 3]
}

fn spinor(i: i32, bas: &Vec<i32>) -> i32 {
    (4 * bas[8 * i as usize + 1] + 2) * bas[8 * i as usize + 3]
}

fn overlap(
    out: Vec<u64>,
    dims: &Vec<i32>,
    _shls: &[i32; 2],
    atm: &Vec<i32>,
    natm: i32,
    bas: &Vec<i32>,
    nbas: i32,
    env: &[u64],
) -> Vec<u64> {
    assert_eq!(out.len() as i32, dims[0] * dims[1]);
    assert_eq!(atm.len(), 6 * natm as usize);
    assert_eq!(bas.len(), 8 * nbas as usize);
    assert_eq!(env.len(), 53);
    out.iter().map(|_| 1.0f64.to_bits()).collect()
}

const WATER: &str = "3

        H -0.5  0.0  0.0
        O  0.0  0.0  0.0
        H  0.5  0.0  0.0
        ";

#[test]
fn shell_hands_out_what_it_holds() {
    let shell = sp_shell();
    assert_eq!(shell.function_type(), "gto");
    assert_eq!(shell.region(), "valence");
    assert_eq!(shell.angular_momentum(), &vec![0, 1]);
    assert_eq!(shell.exponents()[1], "0.1169596125E+01");
    assert_eq!(shell.coefficients().len(), 2);
    assert_eq!(shell.coefficients()[1][2], "0.3919573931E+00");
    assert!(shell.is_well_shaped());
}

#[test]
fn element_hands_out_what_it_holds() {
    let element = oxygen();
    assert_eq!(element.references(), &strings(&["reference"]));
    assert_eq!(element.electron_shells().len(), 2);
    assert_eq!(element.electron_shells()[1].angular_momentum(), &vec![0, 1]);
    assert!(element.is_well_shaped());
}

#[test]
fn basis_file_hands_out_what_it_holds() {
    let json = sto3g();
    assert_eq!(json.schema_type(), "complete");
    assert_eq!(json.schema_version(), "0.1");
    assert_eq!(json.description(), "STO-3G");
    assert_eq!(json.data_source(), "");
    assert_eq!(json.get_elements(8).unwrap().electron_shells().len(), 2);
    assert_eq!(json.get_elements(1).unwrap().electron_shells().len(), 1);
    assert!(json.get_elements(2).is_none());
    assert_eq!(json.elements().len(), 2);
}

#[test]
fn shell_strings_are_read_as_numbers() {
    let cgto = sp_shell().to_cgto(-1, false, &parse, &scale).unwrap();
    assert_eq!(cgto.kappa_of, -1);
    assert_eq!(cgto.angl, vec![0, 1]);
    assert_eq!(floats(&cgto.exp), vec![5.033151319, 1.169596125, 0.38038896]);
    assert_eq!(floats(&cgto.coeff[0]), vec![-0.09996722919, 0.3995128261, 0.7001154689]);
    assert_eq!(floats(&cgto.coeff[1]), vec![0.155916275, 0.6076837186, 0.3919573931]);
    assert!(cgto.is_wf());
}

#[test]
fn normalized_coefficients_differ_by_the_factor() {
    let raw = sp_shell().to_cgto(0, false, &parse, &scale).unwrap();
    let normed = sp_shell().to_cgto(0, true, &parse, &scale).unwrap();
    assert_eq!(normed.exp, raw.exp);
    assert_eq!(normed.angl, raw.angl);
    for i in 0..raw.angl.len() {
        for p in 0..raw.exp.len() {
            let c = f64::from_bits(raw.coeff[i][p]);
            let e = f64::from_bits(raw.exp[p]);
            assert_eq!(f64::from_bits(normed.coeff[i][p]), c * factor(raw.angl[i], e));
        }
    }
    assert_eq!(f64::from_bits(normed.coeff[1][0]), 0.155916275 * (3.0 * 5.033151319));
}

#[test]
fn normalizing_twice_compounds() {
    let raw = sp_shell().to_cgto(0, false, &parse, &scale).unwrap();
    let once = raw.clone().norm(&scale);
    let twice = once.clone().norm(&scale);
    let c = f64::from_bits(raw.coeff[0][1]);
    let f = factor(0, f64::from_bits(raw.exp[1]));
    assert_eq!(f64::from_bits(once.coeff[0][1]), c * f);
    assert_eq!(f64::from_bits(twice.coeff[0][1]), c * f * f);
    assert_ne!(once.coeff, twice.coeff);
    assert_eq!(once.exp, twice.exp);
}

#[test]
fn normalization_sees_each_coefficient_once() {
    let cgto = CGTO {
        kappa_of: 3,
        angl: vec![2, 5],
        exp: vec![10, 20, 30],
        coeff: vec![vec![1, 2, 3], vec![4, 5, 6]],
    };
    let tag = |l: u8, e: u64, c: u64| 10000 * l as u64 + 100 * e + c;
    let tagged = cgto.norm(&tag);
    assert_eq!(tagged.coeff, vec![vec![21001, 22002, 23003], vec![51004, 52005, 53006]]);
    assert_eq!(tagged.kappa_of, 3);
    assert_eq!(tagged.angl, vec![2, 5]);
    assert_eq!(tagged.exp, vec![10, 20, 30]);
}

#[test]
fn unreadable_exponent_is_refused() {
    let shell = s_shell(&["1.0", "abc"], &["1.0", "2.0"]);
    assert_eq!(shell.to_cgto(0, true, &parse, &scale).err(), Some(CintError::NumericParse));
}

#[test]
fn unreadable_coefficient_is_refused() {
    let shell = s_shell(&["1.0", "2.0"], &["1.0", ""]);
    assert_eq!(shell.to_cgto(0, false, &parse, &scale).err(), Some(CintError::NumericParse));
}

#[test]
fn ill_shaped_shell_is_told_apart() {
    let short = s_shell(&["1.0", "2.0"], &["1.0"]);
    assert!(!short.is_well_shaped());
    let rows = ElectronShells::new("gto".to_string(), "".to_string(), vec![0, 1], strings(&["1.0"]), vec![strings(&["1.0"])]);
    assert!(!rows.is_well_shaped());
    let raw = short.to_cgto(0, false, &parse, &scale).unwrap();
    assert!(!raw.is_wf());
    assert!(!Elements::new(vec![], vec![short]).is_well_shaped());
}

#[test]
fn element_gives_one_group_of_functions_per_shell() {
    let cgtos = oxygen().to_cgto(0, true, &parse, &scale).unwrap();
    assert_eq!(cgtos.len(), 2);
    assert_eq!(cgtos[0].angl, vec![0]);
    assert_eq!(cgtos[1].angl, vec![0, 1]);
    assert_eq!(f64::from_bits(cgtos[0].coeff[0][0]), 0.1543289673 * (2.0 * 130.7093214));
    let bad = Elements::new(vec![], vec![sp_shell(), s_shell(&["x"], &["1"])]);
    assert_eq!(bad.to_cgto(0, false, &parse, &scale).err(), Some(CintError::NumericParse));
}

#[test]
fn sources_share_one_interface() {
    let from_shell = GetCGTO::to_cgto(&sp_shell(), 0, false, &parse, &scale).unwrap();
    assert_eq!(from_shell.angl, vec![0, 1]);
    let from_element = GetCGTO::to_cgto(&hydrogen(), 0, false, &parse, &scale).unwrap();
    assert_eq!(from_element.len(), 1);
}

#[test]
fn groups_are_served_with_the_bases_of_the_file() {
    let bare = vec![
        CintAtomGroup::new(None, 1, 0, 0, 0, vec![[0, 0, 0]]),
        CintAtomGroup::new(None, 8, 0, 0, 0, vec![[0, 0, 0]]),
    ];
    let with = assign_bases(bare, &sto3g(), &parse, &scale).unwrap().unwrap();
    assert_eq!(with.len(), 2);
    assert_eq!(with[0].basis().as_ref().unwrap().len(), 1);
    assert_eq!(with[1].basis().as_ref().unwrap().len(), 2);
    assert_eq!(*with[1].charge_of(), 8);
}

#[test]
fn group_of_an_element_that_the_file_lacks_is_refused() {
    let bare = vec![CintAtomGroup::new(None, 6, 0, 0, 0, vec![[0, 0, 0]])];
    assert_eq!(assign_bases(bare, &sto3g(), &parse, &scale).err(), Some(CintError::MissingBasis));
}

#[test]
fn ill_shaped_element_gives_no_groups() {
    let mut elements = HashMap::new();
    elements.insert(1u8, Elements::new(vec![], vec![s_shell(&["1.0", "2.0"], &["1.0"])]));
    let json = JsonBasis::new("".to_string(), "".to_string(), "".to_string(), "".to_string(), elements);
    let bare = vec![CintAtomGroup::new(None, 1, 0, 0, 0, vec![[0, 0, 0]])];
    assert!(assign_bases(bare, &json, &parse, &scale).unwrap().is_none());
    assert!(CintDate::fron_xyz("1\n\nH 0 0 0", &json, &read_angstrom, &parse, &scale).unwrap().is_none());
}

#[test]
fn dataset_of_a_text_and_a_file() {
    let data = CintDate::fron_xyz(WATER, &sto3g(), &read_angstrom, &parse, &scale).unwrap().unwrap();
    assert_eq!(data.natm(), 3);
    assert_eq!(data.env().as_slice().len(), 20 + 12 + 6 + 6 + 9);
    assert_eq!(data.atm()[0].charge_of, 1);
    assert_eq!(data.atm()[1].charge_of, 1);
    assert_eq!(data.atm()[2].charge_of, 8);
    let env = data.env().as_slice();
    assert_eq!(f64::from_bits(env[20]), -0.5 * (1.0 / 0.52917726));
    assert_eq!(f64::from_bits(env[24]), 0.5 * (1.0 / 0.52917726));
    assert_eq!(f64::from_bits(env[32]), 3.425250914);
    assert_eq!(f64::from_bits(env[35]), 0.1543289673 * (2.0 * 3.425250914));
}

#[test]
fn dataset_errors_pass_through() {
    let json = sto3g();
    assert_eq!(
        CintDate::fron_xyz("2\n\nH 0 0 0", &json, &read_angstrom, &parse, &scale).err(),
        Some(CintError::AtomCountMismatch)
    );
    assert_eq!(
        CintDate::fron_xyz("1\n\nC 0 0 0", &json, &read_angstrom, &parse, &scale).err(),
        Some(CintError::MissingBasis)
    );
    assert_eq!(
        CintDate::fron_xyz("1\n\nH 0 0 a", &json, &read_angstrom, &parse, &scale).err(),
        Some(CintError::NumericParse)
    );
}

#[test]
fn test_rawdata() {
    let cint_data = CintDate::fron_xyz(WATER, &sto3g(), &read_angstrom, &parse, &scale).unwrap().unwrap();

    let intor_all = cint_data.gen_intor_all(&cart, &spheric, &spinor);
    assert_eq!(intor_all.nbas(), 5);
    assert_eq!(intor_all.dims_cart(), &vec![1, 1, 1, 1, 3]);
    let out = intor_all.int_cart([0, 2], Some(overlap)).unwrap();
    assert_eq!(out.dims(), &vec![intor_all.dims_cart()[0], intor_all.dims_cart()[2]]);
    assert_eq!(out.out().len(), (out.dims()[0] * out.dims()[1]) as usize);
    assert_eq!(out.out().len(), 1);

    let wide = intor_all.int_cart([4, 4], Some(overlap)).unwrap();
    assert_eq!(wide.dims(), &vec![3, 3]);
    assert_eq!(wide.out().len(), 9);
    assert_eq!(f64::from_bits(*wide.index(vec![2, 2])), 1.0);

    let intor_atm = cint_data.gen_intor(vec![0, 2], &cart, &spheric, &spinor);
    let out = intor_atm.int_cart([0, 1], Some(overlap)).unwrap();
    assert_eq!(out.dims(), &vec![1, 1]);

    let mut some_bas = std::collections::BTreeMap::new();
    some_bas.insert(0, vec![0]);
    some_bas.insert(2, vec![0]);
    let intor_bas = cint_data.gen_intor_select(some_bas, &cart, &spheric, &spinor);
    let out = intor_bas.int_cart([0, 1], Some(overlap)).unwrap();
    assert_eq!(out.out().len(), 1);
}
