//! Contracted basis functions and atom groups: the input of the assembler.
use vstd::prelude::*;
use super::Binary64;
use super::cdata::CintBasis;
use crate::error::CintError;

verus! {

/// A contracted Gaussian-type orbital group: the sub-shells that share one
/// list of exponents.
#[derive(Debug)]
pub struct CGTO {
    /// Spin-orbit coupling selector.
    pub kappa_of: i8,
    /// Angular momentum of each sub-shell.
    pub angl: Vec<u8>,
    /// Exponents of the primitives.
    pub exp: Vec<Binary64>,
    /// Contraction coefficients, one row per sub-shell, one entry per exponent.
    pub coeff: Vec<Vec<Binary64>>,
}

/// The mathematical content of a [`CGTO`].
pub struct CgtoView {
    pub kappa_of: i8,
    pub angl: Seq<u8>,
    pub exp: Seq<Binary64>,
    pub coeff: Seq<Seq<Binary64>>,
}

impl CgtoView {
    /// One coefficient row per sub-shell, one coefficient per exponent.
    pub open spec fn wf(self) -> bool {
        &&& self.coeff.len() == self.angl.len()
        &&& forall|i: int| 0 <= i < self.coeff.len() ==> (#[trigger] self.coeff[i]).len() == self.exp.len()
    }

    /// Number of environment slots that the group takes: its exponents, then
    /// one coefficient row per sub-shell.
    pub open spec fn env_len(self) -> nat {
        self.exp.len() * (self.angl.len() + 1)
    }
}

/// `scaled` is `raw` with each coefficient replaced by what `scale` makes
/// of the angular momentum of its sub-shell, the exponent of its primitive
/// and the coefficient itself; everything else is kept.
pub open spec fn normalized<F: Fn(u8, Binary64, Binary64) -> Binary64>(
    scale: &F,
    raw: CgtoView,
    scaled: CgtoView,
) -> bool {
    &&& scaled.wf()
    &&& scaled.kappa_of == raw.kappa_of
    &&& scaled.angl == raw.angl
    &&& scaled.exp == raw.exp
    &&& forall|i: int, p: int|
        0 <= i < raw.angl.len() && 0 <= p < raw.exp.len() ==> scale.ensures(
            (raw.angl[i], raw.exp[p], raw.coeff[i][p]),
            #[trigger] scaled.coeff[i][p],
        )
}

/// The rows of a coefficient table as sequences.
pub open spec fn rows_view(rows: Seq<Vec<Binary64>>) -> Seq<Seq<Binary64>> {
    Seq::new(rows.len(), |i: int| rows[i]@)
}

impl View for CGTO {
    type V = CgtoView;

    open spec fn view(&self) -> CgtoView {
        CgtoView {
            kappa_of: self.kappa_of,
            angl: self.angl@,
            exp: self.exp@,
            coeff: rows_view(self.coeff@),
        }
    }
}

impl Clone for CGTO {
    fn clone(&self) -> (r: Self)
        ensures
            r@ == self@,
    {
        let mut coeff: Vec<Vec<Binary64>> = Vec::new();
        let mut i: usize = 0;
        while i < self.coeff.len()
            invariant
                i <= self.coeff.len(),
                coeff@.len() == i,
                forall|j: int| 0 <= j < i ==> coeff@[j]@ == self.coeff@[j]@,
            decreases self.coeff.len() - i,
        {
            coeff.push(self.coeff[i].clone());
            i += 1;
        }
        let r = CGTO { kappa_of: self.kappa_of, angl: self.angl.clone(), exp: self.exp.clone(), coeff };
        assert(r@.coeff =~= self@.coeff);
        r
    }
}

impl CGTO {
    /// Whether the group has one coefficient row per sub-shell and one
    /// coefficient per exponent in each row.
    pub fn is_wf(&self) -> (b: bool)
        ensures
            b == self@.wf(),
    {
        if self.coeff.len() != self.angl.len() {
            return false;
        }
        let mut i: usize = 0;
        while i < self.coeff.len()
            invariant
                i <= self.coeff.len(),
                self.coeff.len() == self.angl.len(),
                forall|j: int| 0 <= j < i ==> (#[trigger] self@.coeff[j]).len() == self.exp@.len(),
            decreases self.coeff.len() - i,
        {
            if self.coeff[i].len() != self.exp.len() {
                assert(self@.coeff[i as int].len() != self@.exp.len());
                return false;
            }
            i += 1;
        }
        true
    }

    /// Scales every coefficient by the normalization of its primitive.
    ///
    /// `scale` receives the angular momentum of the sub-shell, the exponent of
    /// the primitive and the coefficient, and returns the scaled coefficient.
    /// It is called once for each coefficient, row by row.  Angular momenta,
    /// exponents and the selector are kept.
    pub fn norm<F: Fn(u8, Binary64, Binary64) -> Binary64>(self, scale: &F) -> (r: Self)
        requires
            self@.wf(),
            forall|l: u8, e: Binary64, c: Binary64| scale.requires((l, e, c)),
        ensures
            normalized(scale, self@, r@),
    {
        let mut coeff: Vec<Vec<Binary64>> = Vec::new();
        let mut i: usize = 0;
        while i < self.coeff.len()
            invariant
                self@.wf(),
                forall|l: u8, e: Binary64, c: Binary64| scale.requires((l, e, c)),
                i <= self.coeff.len(),
                coeff@.len() == i,
                forall|j: int| 0 <= j < i ==> (#[trigger] coeff@[j])@.len() == self.exp@.len(),
                forall|j: int, p: int|
                    0 <= j < i && 0 <= p < self.exp@.len() ==> scale.ensures(
                        (self.angl@[j], self.exp@[p], self.coeff@[j]@[p]),
                        #[trigger] coeff@[j]@[p],
                    ),
            decreases self.coeff.len() - i,
        {
            assert(self@.coeff[i as int].len() == self.exp@.len());
            let mut row: Vec<Binary64> = Vec::new();
            let mut p: usize = 0;
            while p < self.exp.len()
                invariant
                    forall|l: u8, e: Binary64, c: Binary64| scale.requires((l, e, c)),
                    i < self.coeff.len(),
                    self.coeff.len() == self.angl.len(),
                    self.coeff@[i as int]@.len() == self.exp@.len(),
                    p <= self.exp.len(),
                    row@.len() == p,
                    forall|q: int|
                        0 <= q < p ==> scale.ensures(
                            (self.angl@[i as int], self.exp@[q], self.coeff@[i as int]@[q]),
                            #[trigger] row@[q],
                        ),
                decreases self.exp.len() - p,
            {
                row.push(scale(self.angl[i], self.exp[p], self.coeff[i][p]));
                p += 1;
            }
            coeff.push(row);
            i += 1;
        }
        let r = CGTO { kappa_of: self.kappa_of, angl: self.angl, exp: self.exp, coeff };
        assert forall|j: int| 0 <= j < r@.coeff.len() implies (#[trigger] r@.coeff[j]).len()
            == r@.exp.len() by {
            assert(r.coeff@[j]@.len() == r.exp@.len());
        }
        r
    }

    /// The basis record of sub-shell `iangl`, not yet bound to an atom: its
    /// atom index is `-1`.  The record names `ptr_exp` and `ptr_coeff` as the
    /// places of the exponents and of the sub-shell's coefficients.
    pub fn gen_bas(&self, iangl: usize, ptr_exp: i32, ptr_coeff: i32) -> (r: CintBasis)
        requires
            iangl < self@.angl.len(),
            self@.exp.len() <= i32::MAX,
        ensures
            r == template_record(self@, iangl as int, ptr_exp as int, ptr_coeff as int),
    {
        CintBasis {
            atom_of: -1,
            ang_of: self.angl[iangl] as i32,
            nprim_of: self.exp.len() as i32,
            nctr_of: 1,
            kappa_of: self.kappa_of as i32,
            ptr_exp,
            ptr_coeff,
            reserve_baslot: 0,
        }
    }
}

/// The basis record of sub-shell `iangl` of `cgto`, not bound to an atom,
/// with its exponents at `ptr_exp` and its coefficients at `ptr_coeff`.
pub open spec fn template_record(cgto: CgtoView, iangl: int, ptr_exp: int, ptr_coeff: int) -> CintBasis {
    CintBasis {
        atom_of: -1i32,
        ang_of: cgto.angl[iangl] as i32,
        nprim_of: cgto.exp.len() as i32,
        nctr_of: 1,
        kappa_of: cgto.kappa_of as i32,
        ptr_exp: ptr_exp as i32,
        ptr_coeff: ptr_coeff as i32,
        reserve_baslot: 0,
    }
}

/// The groups of a basis as sequences.
pub open spec fn cgtos_view(cgtos: Seq<CGTO>) -> Seq<CgtoView> {
    Seq::new(cgtos.len(), |i: int| cgtos[i]@)
}

/// The basis of an atom group, if it has one.
pub open spec fn basis_view(basis: Option<Vec<CGTO>>) -> Option<Seq<CgtoView>> {
    match basis {
        Some(cgtos) => Some(cgtos_view(cgtos@)),
        None => None,
    }
}

/// Coordinate triples as sequences of three.
pub open spec fn coords_view(coordinates: Seq<[Binary64; 3]>) -> Seq<Seq<Binary64>> {
    Seq::new(coordinates.len(), |i: int| coordinates[i]@)
}

/// The mathematical content of an atom group.
pub struct AtomGroupView {
    /// The basis shared by the atoms, once one is assigned.
    pub basis: Option<Seq<CgtoView>>,
    /// Nuclear charge.
    pub charge_of: u8,
    /// Nuclear model tag.
    pub nuc_mod_of: u8,
    /// Width of the nuclear charge, for the Gaussian model.
    pub zeta: Binary64,
    /// Fractional charge.
    pub frac_charge: Binary64,
    /// One coordinate triple per physical atom.
    pub coordinates: Seq<Seq<Binary64>>,
}

/// A copy of a list of groups of functions.
pub fn clone_cgtos(cgtos: &Vec<CGTO>) -> (r: Vec<CGTO>)
    ensures
        cgtos_view(r@) == cgtos_view(cgtos@),
{
    let mut out: Vec<CGTO> = Vec::new();
    let mut i: usize = 0;
    while i < cgtos.len()
        invariant
            i <= cgtos.len(),
            out@.len() == i,
            forall|j: int| 0 <= j < i ==> out@[j]@ == cgtos@[j]@,
        decreases cgtos.len() - i,
    {
        out.push(cgtos[i].clone());
        i += 1;
    }
    proof {
        assert(cgtos_view(out@) =~= cgtos_view(cgtos@));
    }
    out
}

/// A copy of a basis.
pub fn clone_basis(basis: &Option<Vec<CGTO>>) -> (r: Option<Vec<CGTO>>)
    ensures
        basis_view(r) == basis_view(*basis),
{
    match basis {
        None => None,
        Some(cgtos) => Some(clone_cgtos(cgtos)),
    }
}

/// A copy of a list of coordinate triples.
pub fn clone_coordinates(coordinates: &Vec<[Binary64; 3]>) -> (r: Vec<[Binary64; 3]>)
    ensures
        r@ == coordinates@,
{
    let mut out: Vec<[Binary64; 3]> = Vec::new();
    let mut i: usize = 0;
    while i < coordinates.len()
        invariant
            i <= coordinates.len(),
            out@ == coordinates@.take(i as int),
        decreases coordinates.len() - i,
    {
        out.push(coordinates[i]);
        assert(out@ =~= coordinates@.take(i + 1));
        i += 1;
    }
    assert(coordinates@.take(i as int) =~= coordinates@);
    out
}

/// Atoms of one element that share nuclear model and basis, each with its
/// own coordinates.
#[derive(Debug)]
pub struct CintAtomGroup {
    basis: Option<Vec<CGTO>>,
    charge_of: u8,
    nuc_mod_of: u8,
    zeta: Binary64,
    frac_charge: Binary64,
    coordinates: Vec<[Binary64; 3]>,
}

impl View for CintAtomGroup {
    type V = AtomGroupView;

    closed spec fn view(&self) -> AtomGroupView {
        AtomGroupView {
            basis: basis_view(self.basis),
            charge_of: self.charge_of,
            nuc_mod_of: self.nuc_mod_of,
            zeta: self.zeta,
            frac_charge: self.frac_charge,
            coordinates: coords_view(self.coordinates@),
        }
    }
}

impl Clone for CintAtomGroup {
    fn clone(&self) -> (r: Self)
        ensures
            r@ == self@,
    {
        CintAtomGroup {
            basis: clone_basis(&self.basis),
            charge_of: self.charge_of,
            nuc_mod_of: self.nuc_mod_of,
            zeta: self.zeta,
            frac_charge: self.frac_charge,
            coordinates: clone_coordinates(&self.coordinates),
        }
    }
}

impl CintAtomGroup {
    /// A group with the given content and one atom per coordinate triple.
    pub fn new(
        basis: Option<Vec<CGTO>>,
        charge_of: u8,
        nuc_mod_of: u8,
        zeta: Binary64,
        frac_charge: Binary64,
        coordinates: Vec<[Binary64; 3]>,
    ) -> (r: Self)
        ensures
            r@ == (AtomGroupView {
                basis: basis_view(basis),
                charge_of,
                nuc_mod_of,
                zeta,
                frac_charge,
                coordinates: coords_view(coordinates@),
            }),
    {
        Self { basis, charge_of, nuc_mod_of, zeta, frac_charge, coordinates }
    }

    /// A copy of any atom group as a `CintAtomGroup`.
    pub fn from_other_group<G: AtomGroup>(atom_group: &G) -> (r: Self)
        ensures
            r@ == atom_group.group_view(),
    {
        Self {
            basis: clone_basis(atom_group.basis()),
            charge_of: *atom_group.charge_of(),
            nuc_mod_of: *atom_group.nuc_mod_of(),
            zeta: *atom_group.zeta(),
            frac_charge: *atom_group.frac_charge(),
            coordinates: clone_coordinates(atom_group.coordinates()),
        }
    }
}

/// Read and write access to the parts of an atom group.
///
/// `group_view` is the content of the group; each accessor hands out the
/// part of it that its name says, and a write through a `_mut` accessor
/// changes that part alone.
pub trait AtomGroup {
    /// The content of the group.
    spec fn group_view(&self) -> AtomGroupView;

    fn basis_mut(&mut self) -> (r: &mut Option<Vec<CGTO>>)
        ensures
            basis_view(*r) == old(self).group_view().basis,
            final(self).group_view() == (AtomGroupView {
                basis: basis_view(*final(r)),
                ..old(self).group_view()
            }),
    ;

    fn charge_of_mut(&mut self) -> (r: &mut u8)
        ensures
            *r == old(self).group_view().charge_of,
            final(self).group_view() == (AtomGroupView {
                charge_of: *final(r),
                ..old(self).group_view()
            }),
    ;

    fn nuc_mod_of_mut(&mut self) -> (r: &mut u8)
        ensures
            *r == old(self).group_view().nuc_mod_of,
            final(self).group_view() == (AtomGroupView {
                nuc_mod_of: *final(r),
                ..old(self).group_view()
            }),
    ;

    fn zeta_mut(&mut self) -> (r: &mut Binary64)
        ensures
            *r == old(self).group_view().zeta,
            final(self).group_view() == (AtomGroupView {
                zeta: *final(r),
                ..old(self).group_view()
            }),
    ;

    fn frac_charge_mut(&mut self) -> (r: &mut Binary64)
        ensures
            *r == old(self).group_view().frac_charge,
            final(self).group_view() == (AtomGroupView {
                frac_charge: *final(r),
                ..old(self).group_view()
            }),
    ;

    fn coordinates_mut(&mut self) -> (r: &mut Vec<[Binary64; 3]>)
        ensures
            coords_view(r@) == old(self).group_view().coordinates,
            final(self).group_view() == (AtomGroupView {
                coordinates: coords_view(final(r)@),
                ..old(self).group_view()
            }),
    ;

    fn basis(&self) -> (r: &Option<Vec<CGTO>>)
        ensures
            basis_view(*r) == self.group_view().basis,
    ;

    fn charge_of(&self) -> (r: &u8)
        ensures
            *r == self.group_view().charge_of,
    ;

    fn nuc_mod_of(&self) -> (r: &u8)
        ensures
            *r == self.group_view().nuc_mod_of,
    ;

    fn zeta(&self) -> (r: &Binary64)
        ensures
            *r == self.group_view().zeta,
    ;

    fn frac_charge(&self) -> (r: &Binary64)
        ensures
            *r == self.group_view().frac_charge,
    ;

    fn coordinates(&self) -> (r: &Vec<[Binary64; 3]>)
        ensures
            coords_view(r@) == self.group_view().coordinates,
    ;
}

impl AtomGroup for CintAtomGroup {
    open spec fn group_view(&self) -> AtomGroupView {
        self@
    }

    fn basis_mut(&mut self) -> (r: &mut Option<Vec<CGTO>>) {
        &mut self.basis
    }

    fn charge_of_mut(&mut self) -> (r: &mut u8) {
        &mut self.charge_of
    }

    fn nuc_mod_of_mut(&mut self) -> (r: &mut u8) {
        &mut self.nuc_mod_of
    }

    fn zeta_mut(&mut self) -> (r: &mut Binary64) {
        &mut self.zeta
    }

    fn frac_charge_mut(&mut self) -> (r: &mut Binary64) {
        &mut self.frac_charge
    }

    fn coordinates_mut(&mut self) -> (r: &mut Vec<[Binary64; 3]>) {
        &mut self.coordinates
    }

    fn basis(&self) -> (r: &Option<Vec<CGTO>>) {
        &self.basis
    }

    fn charge_of(&self) -> (r: &u8) {
        &self.charge_of
    }

    fn nuc_mod_of(&self) -> (r: &u8) {
        &self.nuc_mod_of
    }

    fn zeta(&self) -> (r: &Binary64) {
        &self.zeta
    }

    fn frac_charge(&self) -> (r: &Binary64) {
        &self.frac_charge
    }

    fn coordinates(&self) -> (r: &Vec<[Binary64; 3]>) {
        &self.coordinates
    }
}

/// The content of each group of a list.
pub open spec fn group_views<G: AtomGroup>(groups: Seq<G>) -> Seq<AtomGroupView> {
    Seq::new(groups.len(), |g: int| groups[g].group_view())
}

/// Sources of groups of functions: a shell of a basis-set file gives one,
/// an element gives one per shell.
///
/// `parse` reads a decimal string as a number and refuses what is none;
/// `scale` is the normalization of [`CGTO::norm`], applied if `norm` is set.
pub trait GetCGTO {
    type OutPut;

    /// Whether the source can be normalized: its coefficient rows match its
    /// sub-shells and its exponents.
    spec fn normalizable(&self) -> bool;

    fn to_cgto<P, F>(&self, kappa_of: i8, norm: bool, parse: &P, scale: &F) -> (r: Result<
        Self::OutPut,
        CintError,
    >) where P: Fn(&String) -> Option<Binary64>, F: Fn(u8, Binary64, Binary64) -> Binary64
        requires
            norm ==> self.normalizable(),
            forall|text: &String| parse.requires((text,)),
            forall|l: u8, e: Binary64, c: Binary64| scale.requires((l, e, c)),
    ;
}

} // verus!
