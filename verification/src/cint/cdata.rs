//! The assembled dataset: atom records, basis templates and the
//! environment buffer, the selection of basis records by atom, and the
//! way from a geometry text and a basis-set file to a dataset.
use std::collections::BTreeMap;
use vstd::prelude::*;
use vstd::string::StringSliceAdditionalSpecFns;
use super::assemble::{
    angl_below_max, bases_wf, build_atmbas, build_atoms, build_env, build_templates, count_atoms,
    env_fits, have_basis,
};
use super::intor::Intor;
use super::layout::{
    ATM_SLOT, NGRIDS, PTR_COMMON_ORIG, PTR_ENV_START, PTR_EXPCUTOFF, PTR_F12_ZETA, PTR_GRIDS,
    PTR_GTG_ZETA, PTR_RANGE_OMEGA, PTR_RINV_ORIG, PTR_RINV_ZETA,
};
use super::packing::{
    all_atoms, all_have_basis, angl_in_range, atmbas_index, atom_count, atom_records, basis_len,
    basis_of, basis_wf, cgtos_wf, coords_wf, env_len, group_start, lemma_atmbas_entry,
    lemma_atmbas_len, lemma_atmbas_range, lemma_atom_located, lemma_atom_round_trip,
    lemma_basis_records_len, lemma_basis_round_trip, lemma_env_len, lemma_flatten_take_next,
    lemma_record_located, lemma_template_record,
    lemma_flatten_take_none, lemma_select_all_count, mapped_blocks, names_templates, packed_env,
    paired_blocks, realized, select_all, select_atoms, select_map, selected_blocks,
    shells_of_atoms, subshell_count, templates,
};
use super::rawdata::{group_views, AtomGroup, AtomGroupView, CintAtomGroup};
use super::select::{ascending_keys, entries};
use super::{AtomIndex, BasisIndex, Binary64};
use crate::error::CintError;
use crate::io::atom::xyz::{grouped, placement, read_text, some_refused};
use crate::io::basis::json::{element_fails, element_gives, JsonBasis};

verus! {

/// The record of one physical atom: six integers in this order.
#[derive(Debug, Clone, Copy, PartialEq, Eq, Structural)]
pub struct CintAtom {
    /// Nuclear charge.
    pub charge_of: i32,
    /// Environment slot of the first of the three coordinates.
    pub coord: i32,
    /// Nuclear model tag.
    pub nuc_mod_of: i32,
    /// Environment slot of the width of the nuclear charge.
    pub zeta: i32,
    /// Fractional charge, as an integer.
    pub frac_charge: i32,
    /// Reserved.
    pub reserve_atmslot: i32,
}

/// The record of one sub-shell: eight integers in this order.
#[derive(Debug, Clone, Copy, PartialEq, Eq, Structural)]
pub struct CintBasis {
    /// Index of the owning atom; `-1` in a template.
    pub atom_of: i32,
    /// Angular momentum.
    pub ang_of: i32,
    /// Number of primitives.
    pub nprim_of: i32,
    /// Number of contractions.
    pub nctr_of: i32,
    /// Spin-orbit coupling selector.
    pub kappa_of: i32,
    /// Environment slot of the first exponent.
    pub ptr_exp: i32,
    /// Environment slot of the first coefficient.
    pub ptr_coeff: i32,
    /// Reserved.
    pub reserve_baslot: i32,
}

impl CintAtom {
    /// A record with zero in every slot.
    pub fn empty() -> (r: Self)
        ensures
            r == (CintAtom {
                charge_of: 0,
                coord: 0,
                nuc_mod_of: 0,
                zeta: 0,
                frac_charge: 0,
                reserve_atmslot: 0,
            }),
    {
        CintAtom {
            charge_of: 0,
            coord: 0,
            nuc_mod_of: 0,
            zeta: 0,
            frac_charge: 0,
            reserve_atmslot: 0,
        }
    }

    /// The six integers of the record in the order of the foreign layout.
    pub open spec fn slots(self) -> Seq<i32> {
        seq![
            self.charge_of,
            self.coord,
            self.nuc_mod_of,
            self.zeta,
            self.frac_charge,
            self.reserve_atmslot,
        ]
    }

    /// The record as six integers in the order of the foreign layout.
    pub fn to_slots(&self) -> (r: [i32; 6])
        ensures
            r@ == self.slots(),
    {
        let r = [
            self.charge_of,
            self.coord,
            self.nuc_mod_of,
            self.zeta,
            self.frac_charge,
            self.reserve_atmslot,
        ];
        assert(r@ =~= self.slots());
        r
    }
}

impl CintBasis {
    /// A record with zero in every slot.
    pub fn empty() -> (r: Self)
        ensures
            r == (CintBasis {
                atom_of: 0,
                ang_of: 0,
                nprim_of: 0,
                nctr_of: 0,
                kappa_of: 0,
                ptr_exp: 0,
                ptr_coeff: 0,
                reserve_baslot: 0,
            }),
    {
        Self {
            atom_of: 0,
            ang_of: 0,
            nprim_of: 0,
            nctr_of: 0,
            kappa_of: 0,
            ptr_exp: 0,
            ptr_coeff: 0,
            reserve_baslot: 0,
        }
    }

    /// The eight integers of the record in the order of the foreign layout.
    pub open spec fn slots(self) -> Seq<i32> {
        seq![
            self.atom_of,
            self.ang_of,
            self.nprim_of,
            self.nctr_of,
            self.kappa_of,
            self.ptr_exp,
            self.ptr_coeff,
            self.reserve_baslot,
        ]
    }

    /// The record as eight integers in the order of the foreign layout.
    pub fn to_slots(&self) -> (r: [i32; 8])
        ensures
            r@ == self.slots(),
    {
        let r = [
            self.atom_of,
            self.ang_of,
            self.nprim_of,
            self.nctr_of,
            self.kappa_of,
            self.ptr_exp,
            self.ptr_coeff,
            self.reserve_baslot,
        ];
        assert(r@ =~= self.slots());
        r
    }

    /// The record bound to the atom with the given index.
    pub open spec fn bound_to(self, atom: int) -> CintBasis {
        CintBasis { atom_of: atom as i32, ..self }
    }
}

/// The environment buffer: one flat run of doubles, the header first.
#[derive(Debug)]
pub struct CintEnv {
    data: Vec<Binary64>,
}

impl View for CintEnv {
    type V = Seq<Binary64>;

    closed spec fn view(&self) -> Seq<Binary64> {
        self.data@
    }
}

impl Clone for CintEnv {
    fn clone(&self) -> (r: Self)
        ensures
            r@ == self@,
    {
        CintEnv { data: self.data.clone() }
    }
}

impl CintEnv {
    /// The buffer holds the whole header.
    pub open spec fn wf(&self) -> bool {
        self@.len() >= PTR_ENV_START
    }

    /// What the buffer holds after a write of `written` over the slots from
    /// `from` on: the slots before and after are kept.
    pub open spec fn overwritten(before: Seq<Binary64>, from: int, written: Seq<Binary64>) -> Seq<
        Binary64,
    > {
        before.subrange(0, from) + written + before.subrange(
            from + written.len(),
            before.len() as int,
        )
    }

    fn slot_mut(&mut self, at: usize) -> (r: &mut Binary64)
        requires
            at < old(self)@.len(),
        ensures
            *r == old(self)@[at as int],
            final(self)@ == old(self)@.update(at as int, *final(r)),
    {
        &mut self.data[at]
    }

    fn range_mut(&mut self, from: usize, to: usize) -> (r: &mut [Binary64])
        requires
            from <= to <= old(self)@.len(),
        ensures
            r@ == old(self)@.subrange(from as int, to as int),
            final(r)@.len() == to - from ==> final(self)@ == Self::overwritten(
                old(self)@,
                from as int,
                final(r)@,
            ),
    {
        let whole = self.data.as_mut_slice();
        let (_, rest) = whole.split_at_mut(from);
        let (middle, _) = rest.split_at_mut(to - from);
        assert(old(self)@.subrange(from as int, old(self)@.len() as int).subrange(0, to - from)
            =~= old(self)@.subrange(from as int, to as int));
        assert(old(self)@.subrange(from as int, old(self)@.len() as int).subrange(
            to - from,
            old(self)@.len() - from,
        ) =~= old(self)@.subrange(to as int, old(self)@.len() as int));
        middle
    }

    /// The exponent cutoff.
    pub fn expcutoff(&mut self) -> (r: &mut Binary64)
        requires
            old(self).wf(),
        ensures
            *r == old(self)@[PTR_EXPCUTOFF as int],
            final(self)@ == old(self)@.update(PTR_EXPCUTOFF as int, *final(r)),
    {
        self.slot_mut(PTR_EXPCUTOFF)
    }

    /// The three slots of the common origin.
    pub fn common_orig(&mut self) -> (r: &mut [Binary64])
        requires
            old(self).wf(),
        ensures
            r@ == old(self)@.subrange(PTR_COMMON_ORIG as int, PTR_RINV_ORIG as int),
            final(r)@.len() == 3 ==> final(self)@ == Self::overwritten(
                old(self)@,
                PTR_COMMON_ORIG as int,
                final(r)@,
            ),
    {
        self.range_mut(PTR_COMMON_ORIG, PTR_RINV_ORIG)
    }

    /// The three slots of the origin of the inverse-distance operator.
    pub fn rinv_orig(&mut self) -> (r: &mut [Binary64])
        requires
            old(self).wf(),
        ensures
            r@ == old(self)@.subrange(PTR_RINV_ORIG as int, PTR_RINV_ZETA as int),
            final(r)@.len() == 3 ==> final(self)@ == Self::overwritten(
                old(self)@,
                PTR_RINV_ORIG as int,
                final(r)@,
            ),
    {
        self.range_mut(PTR_RINV_ORIG, PTR_RINV_ZETA)
    }

    /// The width of the Gaussian charge of the inverse-distance operator.
    pub fn rinv_zeta(&mut self) -> (r: &mut Binary64)
        requires
            old(self).wf(),
        ensures
            *r == old(self)@[PTR_RINV_ZETA as int],
            final(self)@ == old(self)@.update(PTR_RINV_ZETA as int, *final(r)),
    {
        self.slot_mut(PTR_RINV_ZETA)
    }

    /// The range-separation parameter.
    pub fn range_omega(&mut self) -> (r: &mut Binary64)
        requires
            old(self).wf(),
        ensures
            *r == old(self)@[PTR_RANGE_OMEGA as int],
            final(self)@ == old(self)@.update(PTR_RANGE_OMEGA as int, *final(r)),
    {
        self.slot_mut(PTR_RANGE_OMEGA)
    }

    /// The first auxiliary width.
    pub fn f12_zeta(&mut self) -> (r: &mut Binary64)
        requires
            old(self).wf(),
        ensures
            *r == old(self)@[PTR_F12_ZETA as int],
            final(self)@ == old(self)@.update(PTR_F12_ZETA as int, *final(r)),
    {
        self.slot_mut(PTR_F12_ZETA)
    }

    /// The second auxiliary width.
    pub fn gtg_zeta(&mut self) -> (r: &mut Binary64)
        requires
            old(self).wf(),
        ensures
            *r == old(self)@[PTR_GTG_ZETA as int],
            final(self)@ == old(self)@.update(PTR_GTG_ZETA as int, *final(r)),
    {
        self.slot_mut(PTR_GTG_ZETA)
    }

    /// The grid count.
    pub fn ngrids(&mut self) -> (r: &mut Binary64)
        requires
            old(self).wf(),
        ensures
            *r == old(self)@[NGRIDS as int],
            final(self)@ == old(self)@.update(NGRIDS as int, *final(r)),
    {
        self.slot_mut(NGRIDS)
    }

    /// The slots of the grid data, up to the end of the header.
    pub fn grids(&mut self) -> (r: &mut [Binary64])
        requires
            old(self).wf(),
        ensures
            r@ == old(self)@.subrange(PTR_GRIDS as int, PTR_ENV_START as int),
            final(r)@.len() == PTR_ENV_START - PTR_GRIDS ==> final(self)@ == Self::overwritten(
                old(self)@,
                PTR_GRIDS as int,
                final(r)@,
            ),
    {
        self.range_mut(PTR_GRIDS, PTR_ENV_START)
    }

    /// The four slots of atom `iatm`: its coordinates and its width.
    pub fn atom(&mut self, iatm: usize) -> (r: &mut [Binary64])
        requires
            PTR_ENV_START + ATM_SLOT * (iatm + 1) <= old(self)@.len(),
        ensures
            r@ == old(self)@.subrange(
                PTR_ENV_START + ATM_SLOT * iatm,
                PTR_ENV_START + ATM_SLOT * (iatm + 1),
            ),
            final(r)@.len() == ATM_SLOT ==> final(self)@ == Self::overwritten(
                old(self)@,
                PTR_ENV_START + ATM_SLOT * iatm,
                final(r)@,
            ),
    {
        let len = self.data.len();
        let start = PTR_ENV_START + ATM_SLOT * iatm;
        let end = start + ATM_SLOT;
        self.range_mut(start, end)
    }

    /// The whole buffer, for reading.
    pub fn as_slice(&self) -> (r: &[Binary64])
        ensures
            r@ == self@,
    {
        self.data.as_slice()
    }
}

/// The records of each template as sequences.
pub open spec fn templates_view(templates: Seq<Vec<CintBasis>>) -> Seq<Seq<CintBasis>> {
    Seq::new(templates.len(), |g: int| templates[g]@)
}

/// The assembled dataset: everything that an integral evaluation reads.
#[derive(Debug, Clone)]
pub struct CintDate {
    atom_groups: Vec<CintAtomGroup>,
    basis_template: Vec<Vec<CintBasis>>,
    atmbas_index: Vec<AtomIndex>,
    atm: Vec<CintAtom>,
    env: CintEnv,
}

impl CintDate {
    /// The atom groups that the dataset was assembled from.
    pub closed spec fn groups(&self) -> Seq<AtomGroupView> {
        group_views(self.atom_groups@)
    }

    /// The basis templates, one per atom group.
    pub closed spec fn spec_basis_template(&self) -> Seq<Seq<CintBasis>> {
        templates_view(self.basis_template@)
    }

    /// For each atom the index of its group, which is that of its template.
    pub closed spec fn spec_atmbas_index(&self) -> Seq<AtomIndex> {
        self.atmbas_index@
    }

    /// The atom records.
    pub closed spec fn spec_atm(&self) -> Seq<CintAtom> {
        self.atm@
    }

    /// The environment buffer.
    pub closed spec fn spec_env(&self) -> Seq<Binary64> {
        self.env@
    }

    /// The number of physical atoms.
    pub open spec fn spec_natm(&self) -> nat {
        atom_count(self.groups())
    }

    /// The dataset is what assembly makes of its groups: the records and
    /// the mapping are those of the groups, and past the header the
    /// environment buffer holds the atoms and the bases.
    pub open spec fn wf(&self) -> bool {
        let groups = self.groups();
        &&& groups.len() <= usize::MAX
        &&& all_have_basis(groups)
        &&& angl_in_range(groups)
        &&& cgtos_wf(groups)
        &&& coords_wf(groups)
        &&& env_len(groups) <= i32::MAX
        &&& self.spec_basis_template() == templates(groups)
        &&& self.spec_atmbas_index() == atmbas_index(groups)
        &&& self.spec_atm() == atom_records(groups)
        &&& self.spec_env().len() == env_len(groups)
        &&& forall|at: int|
            PTR_ENV_START <= at < env_len(groups) ==> self.spec_env()[at] == packed_env(groups)[at]
    }

    /// Whether [`CintDate::new`] accepts the groups: every group of functions
    /// has one coefficient row per sub-shell and one coefficient per
    /// exponent, and the environment buffer is short enough for its offsets
    /// to fit a record's 32-bit slots.
    pub fn can_assemble<G: AtomGroup>(atom_groups: &Vec<G>) -> (b: bool)
        ensures
            b == (cgtos_wf(group_views(atom_groups@)) && env_len(group_views(atom_groups@))
                <= i32::MAX),
    {
        bases_wf(atom_groups) && env_fits(atom_groups)
    }

    /// Assembles the atom records, the basis templates, the atom-to-basis
    /// mapping and the environment buffer of the given groups.
    ///
    /// Fails with `MissingBasis` if a group has no basis, and otherwise with
    /// `AngularMomentumOutOfRange` if a sub-shell's angular momentum is
    /// `ANG_MAX` or more.
    pub fn new<G: AtomGroup>(atom_groups: Vec<G>) -> (r: Result<Self, CintError>)
        requires
            cgtos_wf(group_views(atom_groups@)),
            env_len(group_views(atom_groups@)) <= i32::MAX,
        ensures
            match r {
                Ok(data) => {
                    &&& all_have_basis(group_views(atom_groups@))
                    &&& angl_in_range(group_views(atom_groups@))
                    &&& data.wf()
                    &&& data.groups() == group_views(atom_groups@)
                    &&& data.spec_env() == packed_env(group_views(atom_groups@))
                    &&& data.spec_env().len() == PTR_ENV_START + ATM_SLOT * atom_count(
                        group_views(atom_groups@),
                    ) + basis_len(group_views(atom_groups@))
                },
                Err(e) => if all_have_basis(group_views(atom_groups@)) {
                    !angl_in_range(group_views(atom_groups@)) && e
                        == CintError::AngularMomentumOutOfRange
                } else {
                    e == CintError::MissingBasis
                },
            },
    {
        let ghost views = group_views(atom_groups@);
        if !have_basis(&atom_groups) {
            return Err(CintError::MissingBasis);
        }
        if !angl_below_max(&atom_groups) {
            return Err(CintError::AngularMomentumOutOfRange);
        }
        proof {
            lemma_env_len(views);
        }
        let natm = count_atoms(&atom_groups);
        let basis_template = build_templates(&atom_groups, natm);
        let atmbas_index = build_atmbas(&atom_groups);
        let atm = build_atoms(&atom_groups);
        let env = CintEnv { data: build_env(&atom_groups) };
        let mut groups: Vec<CintAtomGroup> = Vec::new();
        let mut g: usize = 0;
        while g < atom_groups.len()
            invariant
                views == group_views(atom_groups@),
                g <= atom_groups.len(),
                groups@.len() == g,
                forall|h: int| 0 <= h < g ==> (#[trigger] groups@[h])@ == views[h],
            decreases atom_groups.len() - g,
        {
            groups.push(CintAtomGroup::from_other_group(&atom_groups[g]));
            g += 1;
        }
        let data = Self { atom_groups: groups, basis_template, atmbas_index, atm, env };
        proof {
            assert(data.groups() =~= views);
        }
        Ok(data)
    }

    /// The atom groups of the dataset.
    pub fn atom_groups(&self) -> (r: &Vec<CintAtomGroup>)
        ensures
            group_views(r@) == self.groups(),
    {
        &self.atom_groups
    }

    /// The basis templates, one per atom group.
    pub fn basis_template(&self) -> (r: &Vec<Vec<CintBasis>>)
        ensures
            templates_view(r@) == self.spec_basis_template(),
    {
        &self.basis_template
    }

    /// For each atom the index of its template.
    pub fn atmbas_index(&self) -> (r: &Vec<AtomIndex>)
        ensures
            r@ == self.spec_atmbas_index(),
    {
        &self.atmbas_index
    }

    /// The environment buffer.
    pub fn env(&self) -> (r: &CintEnv)
        ensures
            r@ == self.spec_env(),
    {
        &self.env
    }

    /// The environment buffer, for rewriting its header between
    /// evaluations.  The slots after the header are what the records name:
    /// the dataset stays well formed as long as they are kept.
    pub fn env_mut(&mut self) -> (r: &mut CintEnv)
        ensures
            r@ == old(self).spec_env(),
            final(self).spec_env() == final(r)@,
            final(self).groups() == old(self).groups(),
            final(self).spec_basis_template() == old(self).spec_basis_template(),
            final(self).spec_atmbas_index() == old(self).spec_atmbas_index(),
            final(self).spec_atm() == old(self).spec_atm(),
    {
        &mut self.env
    }

    /// The atom records.
    pub fn atm(&self) -> (r: &Vec<CintAtom>)
        ensures
            r@ == self.spec_atm(),
    {
        &self.atm
    }
}

/// Appends the records of a template, bound to the atom index `atom`.
fn push_realized(out: &mut Vec<CintBasis>, template: &Vec<CintBasis>, atom: i32)
    ensures
        final(out)@ == old(out)@ + realized(template@, atom as int),
{
    let ghost before = out@;
    let ghost block = realized(template@, atom as int);
    let mut r: usize = 0;
    while r < template.len()
        invariant
            block == realized(template@, atom as int),
            r <= template.len(),
            out@ == before + block.take(r as int),
        decreases template.len() - r,
    {
        let mut rbas = template[r];
        rbas.atom_of = atom;
        out.push(rbas);
        proof {
            assert(out@ =~= before + block.take(r + 1));
        }
        r += 1;
    }
    proof {
        assert(block.take(r as int) =~= block);
    }
}

impl CintDate {
    /// The number of physical atoms.
    pub fn natm(&self) -> (n: usize)
        requires
            self.wf(),
        ensures
            n == self.spec_natm(),
            n == self.spec_atmbas_index().len(),
            n <= i32::MAX,
    {
        proof {
            lemma_atmbas_len(self.groups());
            lemma_env_len(self.groups());
        }
        self.atm.len()
    }

    /// Every entry of the atom-to-basis mapping of a well-formed dataset
    /// names one of its templates.
    pub proof fn lemma_atmbas_in_range(&self, a: int)
        requires
            self.wf(),
            0 <= a < self.spec_natm(),
        ensures
            self.spec_atmbas_index().len() == self.spec_natm(),
            self.spec_basis_template().len() == self.groups().len(),
            0 <= self.spec_atmbas_index()[a] < self.spec_basis_template().len(),
    {
        lemma_atmbas_range(self.groups(), a);
    }

    /// Every atom record of a well-formed dataset points at the slots of the
    /// environment buffer that hold the atom's data.  Atom `a` is atom `j`
    /// of some group `g`, which the lemma returns; its record holds the
    /// charge and the nuclear model of the group, the three slots from
    /// `coord` on hold its coordinates, and the slot `zeta` holds the width
    /// of the group.
    pub proof fn lemma_atom_offsets(&self, a: int) -> (at: (int, int))
        requires
            self.wf(),
            0 <= a < self.spec_atm().len(),
        ensures
            ({
                let (g, j) = at;
                let group = self.groups()[g];
                let rec = self.spec_atm()[a];
                let env = self.spec_env();
                &&& 0 <= g < self.groups().len()
                &&& 0 <= j < group.coordinates.len()
                &&& a == atom_count(self.groups().take(g)) + j
                &&& self.spec_atmbas_index()[a] == g
                &&& rec.charge_of == group.charge_of
                &&& rec.nuc_mod_of == group.nuc_mod_of
                &&& rec.coord == PTR_ENV_START + ATM_SLOT * a
                &&& rec.zeta == rec.coord + 3
                &&& rec.zeta < env.len()
                &&& env[rec.coord as int] == group.coordinates[j][0]
                &&& env[rec.coord + 1] == group.coordinates[j][1]
                &&& env[rec.coord + 2] == group.coordinates[j][2]
                &&& env[rec.zeta as int] == group.zeta
            }),
    {
        let at = lemma_atom_located(self.groups(), a);
        lemma_atmbas_entry(self.groups(), at.0, at.1);
        lemma_atom_round_trip(self.groups(), at.0, at.1);
        lemma_env_len(self.groups());
        at
    }

    /// Every basis record of a well-formed dataset points at the slots of
    /// the environment buffer that hold its exponents and coefficients.
    /// Record `r` of the template of group `g` is the record of sub-shell `i`
    /// of some group of functions `k` of the group's basis, which the lemma
    /// returns; it holds the angular momentum of the sub-shell and the number
    /// of exponents, the slots from `ptr_exp` on hold the exponents, and the
    /// slots from `ptr_coeff` on hold the coefficients of the sub-shell.
    pub proof fn lemma_basis_offsets(&self, g: int, r: int) -> (at: (int, int))
        requires
            self.wf(),
            0 <= g < self.groups().len(),
            0 <= r < self.spec_basis_template()[g].len(),
        ensures
            ({
                let (k, i) = at;
                let basis = basis_of(self.groups()[g]);
                let rec = self.spec_basis_template()[g][r];
                let env = self.spec_env();
                &&& 0 <= k < basis.len()
                &&& 0 <= i < basis[k].angl.len()
                &&& r == subshell_count(basis.take(k)) + i
                &&& rec.atom_of == -1
                &&& rec.ang_of == basis[k].angl[i]
                &&& rec.nprim_of == basis[k].exp.len()
                &&& rec.nctr_of == 1
                &&& rec.kappa_of == basis[k].kappa_of
                &&& PTR_ENV_START <= rec.ptr_exp
                &&& rec.ptr_exp + rec.nprim_of <= rec.ptr_coeff
                &&& rec.ptr_coeff + rec.nprim_of <= env.len()
                &&& forall|p: int|
                    0 <= p < rec.nprim_of ==> env[rec.ptr_exp + p] == #[trigger] basis[k].exp[p]
                        && env[rec.ptr_coeff + p] == basis[k].coeff[i][p]
            }),
    {
        let groups = self.groups();
        let basis = basis_of(groups[g]);
        lemma_basis_records_len(basis, group_start(groups, g));
        let at = lemma_record_located(basis, r);
        lemma_template_record(groups, g, at.0, at.1);
        lemma_env_len(groups);
        assert forall|p: int| 0 <= p < basis[at.0].exp.len() implies self.spec_env()[
            self.spec_basis_template()[g][r].ptr_exp + p
        ] == #[trigger] basis[at.0].exp[p] && self.spec_env()[
            self.spec_basis_template()[g][r].ptr_coeff + p
        ] == basis[at.0].coeff[at.1][p] by {
            lemma_basis_round_trip(groups, g, at.0, at.1, p);
        }
        at
    }

    /// The basis records of every atom: for each atom in turn the records of
    /// its template, bound to the atom's sequence number.
    pub fn gen_bas_all(&self) -> (r: Vec<CintBasis>)
        requires
            self.wf(),
        ensures
            r@ == select_all(self.spec_basis_template(), self.spec_atmbas_index()),
            r@.len() == shells_of_atoms(self.groups(), self.spec_natm()),
    {
        proof {
            lemma_env_len(self.groups());
            lemma_select_all_count(self.groups());
        }
        let ghost templates = self.spec_basis_template();
        let ghost atmbas = self.spec_atmbas_index();
        let ghost blocks = selected_blocks(templates, atmbas, all_atoms(atmbas.len()));
        let natm = self.natm();
        let mut out: Vec<CintBasis> = Vec::new();
        let mut iatm: usize = 0;
        proof {
            lemma_flatten_take_none(blocks);
        }
        while iatm < natm
            invariant
                self.wf(),
                templates == self.spec_basis_template(),
                atmbas == self.spec_atmbas_index(),
                blocks == selected_blocks(templates, atmbas, all_atoms(atmbas.len())),
                natm == atmbas.len(),
                natm == self.spec_natm(),
                natm <= i32::MAX,
                iatm <= natm,
                out@ == blocks.take(iatm as int).flatten(),
            decreases natm - iatm,
        {
            proof {
                self.lemma_atmbas_in_range(iatm as int);
            }
            let ibas = self.atmbas_index[iatm];
            push_realized(&mut out, &self.basis_template[ibas], iatm as i32);
            proof {
                lemma_flatten_take_next(blocks, iatm as int);
            }
            iatm += 1;
        }
        proof {
            assert(blocks.take(iatm as int) =~= blocks);
        }
        out
    }

    /// The basis records of the listed atoms: for each atom of the list in
    /// turn the records of its template, bound to the atom's position in
    /// the list.
    ///
    /// Fails with `AtomIndexOutOfRange` if the list names an atom that the
    /// dataset does not hold.
    pub fn gen_bas(&self, iatm: Vec<AtomIndex>) -> (r: Result<Vec<CintBasis>, CintError>)
        requires
            self.wf(),
            iatm@.len() <= i32::MAX,
        ensures
            match r {
                Ok(records) => {
                    &&& forall|pos: int| 0 <= pos < iatm@.len() ==> iatm@[pos] < self.spec_natm()
                    &&& records@ == select_atoms(
                        self.spec_basis_template(),
                        self.spec_atmbas_index(),
                        iatm@,
                    )
                },
                Err(e) => {
                    &&& e == CintError::AtomIndexOutOfRange
                    &&& exists|pos: int| 0 <= pos < iatm@.len() && iatm@[pos] >= self.spec_natm()
                },
            },
    {
        let ghost templates = self.spec_basis_template();
        let ghost atmbas = self.spec_atmbas_index();
        let ghost blocks = selected_blocks(templates, atmbas, iatm@);
        let natm = self.natm();
        let mut out: Vec<CintBasis> = Vec::new();
        let mut pos: usize = 0;
        proof {
            lemma_flatten_take_none(blocks);
        }
        while pos < iatm.len()
            invariant
                self.wf(),
                templates == self.spec_basis_template(),
                atmbas == self.spec_atmbas_index(),
                blocks == selected_blocks(templates, atmbas, iatm@),
                natm == self.spec_natm(),
                iatm@.len() <= i32::MAX,
                pos <= iatm.len(),
                forall|p: int| 0 <= p < pos ==> iatm@[p] < natm,
                out@ == blocks.take(pos as int).flatten(),
            decreases iatm.len() - pos,
        {
            let i = iatm[pos];
            if i >= natm {
                return Err(CintError::AtomIndexOutOfRange);
            }
            proof {
                self.lemma_atmbas_in_range(i as int);
            }
            let ibas = self.atmbas_index[i];
            push_realized(&mut out, &self.basis_template[ibas], pos as i32);
            proof {
                lemma_flatten_take_next(blocks, pos as int);
            }
            pos += 1;
        }
        proof {
            assert(blocks.take(pos as int) =~= blocks);
        }
        Ok(out)
    }

    /// The basis records of the pairs of atom and template that the map
    /// names: the atoms in ascending order, for each atom its templates in
    /// the order given, each record bound to the atom.  The map has one
    /// ascending list of its keys, so the order of the records is fixed.
    ///
    /// Fails with `AtomIndexOutOfRange` if the map names an atom that the
    /// dataset does not hold.
    #[verifier::rlimit(50)]
    pub fn gen_bas_select(&self, which_bas: BTreeMap<AtomIndex, Vec<BasisIndex>>) -> (r: Result<
        Vec<CintBasis>,
        CintError,
    >)
        requires
            self.wf(),
            names_templates(which_bas@, self.spec_basis_template().len()),
        ensures
            match r {
                Ok(records) => {
                    &&& forall|k: AtomIndex| which_bas@.contains_key(k) ==> k < self.spec_natm()
                    &&& exists|keys: Seq<AtomIndex>|
                        ascending_keys(keys, which_bas@) && records@ == select_map(
                            self.spec_basis_template(),
                            keys,
                            which_bas@,
                        )
                },
                Err(e) => {
                    &&& e == CintError::AtomIndexOutOfRange
                    &&& exists|k: AtomIndex| which_bas@.contains_key(k) && k >= self.spec_natm()
                },
            },
    {
        let ghost templates = self.spec_basis_template();
        let natm = self.natm();
        let listed = entries(&which_bas);
        let ghost keys = Seq::new(listed@.len(), |i: int| listed@[i].0);
        let ghost blocks = mapped_blocks(templates, keys, which_bas@);
        let mut out: Vec<CintBasis> = Vec::new();
        let mut at: usize = 0;
        proof {
            lemma_flatten_take_none(blocks);
        }
        while at < listed.len()
            invariant
                self.wf(),
                templates == self.spec_basis_template(),
                names_templates(which_bas@, templates.len()),
                natm == self.spec_natm(),
                natm <= i32::MAX,
                keys == Seq::new(listed@.len(), |i: int| listed@[i].0),
                ascending_keys(keys, which_bas@),
                forall|i: int| 0 <= i < listed@.len() ==> which_bas@[(#[trigger] listed@[i]).0]
                    == *listed@[i].1,
                blocks == mapped_blocks(templates, keys, which_bas@),
                at <= listed.len(),
                forall|i: int| 0 <= i < at ==> keys[i] < natm,
                out@ == blocks.take(at as int).flatten(),
            decreases listed.len() - at,
        {
            let iatm = listed[at].0;
            let ibas_all = listed[at].1;
            assert(keys[at as int] == iatm);
            assert(which_bas@.contains_key(iatm));
            assert(which_bas@[iatm] == *ibas_all);
            if iatm >= natm {
                return Err(CintError::AtomIndexOutOfRange);
            }
            let ghost before = out@;
            let ghost inner = paired_blocks(templates, iatm, ibas_all@);
            proof {
                lemma_flatten_take_none(inner);
                assert(out@ =~= before + inner.take(0).flatten());
            }
            let mut b: usize = 0;
            while b < ibas_all.len()
                invariant
                    templates == self.spec_basis_template(),
                    names_templates(which_bas@, templates.len()),
                    which_bas@.contains_key(iatm),
                    which_bas@[iatm] == *ibas_all,
                    iatm < natm,
                    natm <= i32::MAX,
                    inner == paired_blocks(templates, iatm, ibas_all@),
                    b <= ibas_all.len(),
                    out@ == before + inner.take(b as int).flatten(),
                decreases ibas_all.len() - b,
            {
                let ibas = ibas_all[b];
                assert(which_bas@[iatm]@[b as int] < templates.len());
                push_realized(&mut out, &self.basis_template[ibas], iatm as i32);
                proof {
                    lemma_flatten_take_next(inner, b as int);
                    assert(out@ =~= before + inner.take(b + 1).flatten());
                }
                b += 1;
            }
            proof {
                assert(inner.take(b as int) =~= inner);
                lemma_flatten_take_next(blocks, at as int);
            }
            at += 1;
        }
        proof {
            assert(blocks.take(at as int) =~= blocks);
            assert forall|k: AtomIndex| which_bas@.contains_key(k) implies k < natm by {
                assert(keys.contains(k));
            }
        }
        Ok(out)
    }
}

impl CintDate {
    /// An invoker over the basis records of every atom.
    pub fn gen_intor_all<'a, F1, F2, F3>(&'a self, cart: &F1, spheric: &F2, spinor: &F3) -> (r:
        Intor<'a>) where
        F1: Fn(i32, &Vec<i32>) -> i32,
        F2: Fn(i32, &Vec<i32>) -> i32,
        F3: Fn(i32, &Vec<i32>) -> i32,

        requires
            self.wf(),
            shells_of_atoms(self.groups(), self.spec_natm()) <= i32::MAX,
            forall|i: i32, slots: &Vec<i32>| cart.requires((i, slots)),
            forall|i: i32, slots: &Vec<i32>| spheric.requires((i, slots)),
            forall|i: i32, slots: &Vec<i32>| spinor.requires((i, slots)),
        ensures
            r.built_from(
                self.spec_atm(),
                select_all(self.spec_basis_template(), self.spec_atmbas_index()),
                self.spec_env(),
                cart,
                spheric,
                spinor,
            ),
    {
        let natm = self.natm();
        Intor::new(&self.atm, self.gen_bas_all(), &self.env, cart, spheric, spinor)
    }

    /// An invoker for the listed atoms.  The invoker covers the basis
    /// records of every atom of the dataset, whatever the list holds; the
    /// records of the listed atoms alone are those of [`CintDate::gen_bas`].
    pub fn gen_intor<'a, F1, F2, F3>(
        &'a self,
        iatm: Vec<AtomIndex>,
        cart: &F1,
        spheric: &F2,
        spinor: &F3,
    ) -> (r: Intor<'a>) where
        F1: Fn(i32, &Vec<i32>) -> i32,
        F2: Fn(i32, &Vec<i32>) -> i32,
        F3: Fn(i32, &Vec<i32>) -> i32,

        requires
            self.wf(),
            shells_of_atoms(self.groups(), self.spec_natm()) <= i32::MAX,
            forall|i: i32, slots: &Vec<i32>| cart.requires((i, slots)),
            forall|i: i32, slots: &Vec<i32>| spheric.requires((i, slots)),
            forall|i: i32, slots: &Vec<i32>| spinor.requires((i, slots)),
        ensures
            r.built_from(
                self.spec_atm(),
                select_all(self.spec_basis_template(), self.spec_atmbas_index()),
                self.spec_env(),
                cart,
                spheric,
                spinor,
            ),
    {
        self.gen_intor_all(cart, spheric, spinor)
    }

    /// An invoker for the given map from atoms to templates.  The invoker
    /// covers the basis records of every atom of the dataset, whatever the
    /// map holds; the records of the named pairs alone are those of
    /// [`CintDate::gen_bas_select`].
    pub fn gen_intor_select<'a, F1, F2, F3>(
        &'a self,
        which_bas: BTreeMap<AtomIndex, Vec<BasisIndex>>,
        cart: &F1,
        spheric: &F2,
        spinor: &F3,
    ) -> (r: Intor<'a>) where
        F1: Fn(i32, &Vec<i32>) -> i32,
        F2: Fn(i32, &Vec<i32>) -> i32,
        F3: Fn(i32, &Vec<i32>) -> i32,

        requires
            self.wf(),
            shells_of_atoms(self.groups(), self.spec_natm()) <= i32::MAX,
            forall|i: i32, slots: &Vec<i32>| cart.requires((i, slots)),
            forall|i: i32, slots: &Vec<i32>| spheric.requires((i, slots)),
            forall|i: i32, slots: &Vec<i32>| spinor.requires((i, slots)),
        ensures
            r.built_from(
                self.spec_atm(),
                select_all(self.spec_basis_template(), self.spec_atmbas_index()),
                self.spec_env(),
                cart,
                spheric,
                spinor,
            ),
    {
        self.gen_intor_all(cart, spheric, spinor)
    }
}

/// `with` is `bare` with the basis that the file gives for its element:
/// the groups of functions of the element's shells, read by `parse` and
/// normalized by `scale`, with selector zero.
pub open spec fn given_basis<P, F>(
    json: &JsonBasis,
    parse: &P,
    scale: &F,
    bare: AtomGroupView,
    with: AtomGroupView,
) -> bool where P: Fn(&String) -> Option<Binary64>, F: Fn(u8, Binary64, Binary64) -> Binary64 {
    &&& json.spec_elements().contains_key(bare.charge_of)
    &&& json.spec_elements()[bare.charge_of]@.well_shaped()
    &&& with.basis is Some
    &&& element_gives(
        parse,
        scale,
        json.spec_elements()[bare.charge_of]@,
        0,
        true,
        with.basis->Some_0,
    )
    &&& with == (AtomGroupView { basis: with.basis, ..bare })
}

/// Each group of `with` is the group of `bare` at its place with the basis
/// that the file gives for its element.
pub open spec fn given_bases<P, F>(
    json: &JsonBasis,
    parse: &P,
    scale: &F,
    bare: Seq<AtomGroupView>,
    with: Seq<AtomGroupView>,
) -> bool where P: Fn(&String) -> Option<Binary64>, F: Fn(u8, Binary64, Binary64) -> Binary64 {
    &&& with.len() == bare.len()
    &&& forall|g: int|
        0 <= g < bare.len() ==> given_basis(json, parse, scale, bare[g], #[trigger] with[g])
}

/// The file holds the element of the group, and every shell of it has one
/// coefficient row per sub-shell and one coefficient per exponent.
pub open spec fn servable(json: &JsonBasis, group: AtomGroupView) -> bool {
    &&& json.spec_elements().contains_key(group.charge_of)
    &&& json.spec_elements()[group.charge_of]@.well_shaped()
}

/// Group `g` is reached: every group before it is servable.
pub open spec fn reached(json: &JsonBasis, bare: Seq<AtomGroupView>, g: int) -> bool {
    &&& 0 <= g < bare.len()
    &&& forall|h: int| 0 <= h < g ==> servable(json, #[trigger] bare[h])
}

/// The first group that is not servable is one whose element the file
/// lacks.
pub open spec fn lacks_element(json: &JsonBasis, bare: Seq<AtomGroupView>) -> bool {
    exists|g: int|
        #[trigger] reached(json, bare, g) && !json.spec_elements().contains_key(bare[g].charge_of)
}

/// The first group that is not servable is one whose element the file
/// holds with an ill-shaped shell.
pub open spec fn holds_ill_shaped(json: &JsonBasis, bare: Seq<AtomGroupView>) -> bool {
    exists|g: int|
        #[trigger] reached(json, bare, g) && json.spec_elements().contains_key(bare[g].charge_of)
            && !json.spec_elements()[bare[g].charge_of]@.well_shaped()
}

/// A group is reached and servable, and the reader may refuse a string of
/// its element.
pub open spec fn refuses_element<P: Fn(&String) -> Option<Binary64>>(
    json: &JsonBasis,
    parse: &P,
    bare: Seq<AtomGroupView>,
) -> bool {
    exists|g: int|
        #[trigger] reached(json, bare, g) && servable(json, bare[g]) && element_fails(
            parse,
            json.spec_elements()[bare[g].charge_of]@,
        )
}

/// Gives each group the basis that the file holds for its element, read by
/// `parse` and normalized by `scale`.
///
/// The groups are taken in order and the first that cannot be served
/// decides: `MissingBasis` if the file lacks its element, no groups if the
/// element has an ill-shaped shell, `NumericParse` if `parse` refuses one
/// of its strings.
#[verifier::rlimit(50)]
pub fn assign_bases<P, F>(groups: Vec<CintAtomGroup>, json: &JsonBasis, parse: &P, scale: &F) -> (r:
    Result<Option<Vec<CintAtomGroup>>, CintError>) where
    P: Fn(&String) -> Option<Binary64>,
    F: Fn(u8, Binary64, Binary64) -> Binary64,

    requires
        forall|text: &String| parse.requires((text,)),
        forall|l: u8, e: Binary64, c: Binary64| scale.requires((l, e, c)),
    ensures
        match r {
            Ok(Some(with)) => given_bases(
                json,
                parse,
                scale,
                group_views(groups@),
                group_views(with@),
            ),
            Ok(None) => holds_ill_shaped(json, group_views(groups@)),
            Err(e) => {
                ||| e == CintError::MissingBasis && lacks_element(json, group_views(groups@))
                ||| e == CintError::NumericParse && refuses_element(
                    json,
                    parse,
                    group_views(groups@),
                )
            },
        },
{
    let ghost bare = group_views(groups@);
    let mut with: Vec<CintAtomGroup> = Vec::new();
    let mut g: usize = 0;
    while g < groups.len()
        invariant
            bare == group_views(groups@),
            forall|text: &String| parse.requires((text,)),
            forall|l: u8, e: Binary64, c: Binary64| scale.requires((l, e, c)),
            g <= groups.len(),
            with@.len() == g,
            forall|h: int|
                0 <= h < g ==> given_basis(json, parse, scale, bare[h], (#[trigger] with@[h])@),
        decreases groups.len() - g,
    {
        let group = &groups[g];
        assert(bare[g as int] == group@);
        assert(reached(json, bare, g as int)) by {
            assert forall|h: int| 0 <= h < g implies servable(json, #[trigger] bare[h]) by {
                assert(given_basis(json, parse, scale, bare[h], with@[h]@));
            }
        }
        let element = match json.get_elements(*group.charge_of()) {
            None => {
                return Err(CintError::MissingBasis);
            },
            Some(element) => element,
        };
        if !element.is_well_shaped() {
            return Ok(None);
        }
        let cgtos = match element.to_cgto(0, true, parse, scale) {
            Err(e) => {
                return Err(e);
            },
            Ok(cgtos) => cgtos,
        };
        let mut served = group.clone();
        let basis = served.basis_mut();
        *basis = Some(cgtos);
        with.push(served);
        g += 1;
    }
    proof {
        assert forall|h: int| 0 <= h < bare.len() implies given_basis(
            json,
            parse,
            scale,
            bare[h],
            #[trigger] group_views(with@)[h],
        ) by {
            assert(group_views(with@)[h] == with@[h]@);
        }
    }
    Ok(Some(with))
}

impl CintDate {
    /// The dataset of a geometry text with the bases of a basis-set file.
    ///
    /// The text is read as [`CintAtomGroup::from_xyz`] reads it, each group
    /// is given the basis of its element as [`assign_bases`] gives it, and
    /// the groups are assembled.  Gives no dataset if a basis is ill shaped
    /// or the environment buffer would not fit the offsets of the records.
    #[verifier::rlimit(50)]
    pub fn fron_xyz<R, P, F>(xyz_str: &str, json: &JsonBasis, read: &R, parse: &P, scale: &F) -> (r:
        Result<Option<Self>, CintError>) where
        R: Fn(&Vec<u8>) -> Option<Binary64>,
        P: Fn(&String) -> Option<Binary64>,
        F: Fn(u8, Binary64, Binary64) -> Binary64,

        requires
            forall|f: &Vec<u8>| read.requires((f,)),
            forall|text: &String| parse.requires((text,)),
            forall|l: u8, e: Binary64, c: Binary64| scale.requires((l, e, c)),
        ensures
            match r {
                Ok(Some(data)) => {
                    &&& data.wf()
                    &&& data.spec_env() == packed_env(data.groups())
                    &&& Self::sourced(xyz_str, json, read, parse, scale, data.groups())
                },
                Ok(None) => Self::unfit(xyz_str, json, read, parse, scale),
                Err(e) => Self::fails_with(xyz_str, json, read, parse, scale, e),
            },
    {
        let bare = match CintAtomGroup::from_xyz(xyz_str, None, read) {
            Err(e) => {
                return Err(e);
            },
            Ok(bare) => bare,
        };
        let ghost bare_views = group_views(bare@);
        assert(Self::read_as(xyz_str, read, bare_views));
        let with = match assign_bases(bare, json, parse, scale) {
            Err(e) => {
                proof {
                    assert(Self::served(json, parse, scale, bare_views, e));
                }
                return Err(e);
            },
            Ok(None) => {
                return Ok(None);
            },
            Ok(Some(with)) => with,
        };
        let ghost with_views = group_views(with@);
        proof {
            lemma_given_bases_wf(json, parse, scale, bare_views, with_views);
        }
        if !Self::can_assemble(&with) {
            proof {
                assert(cgtos_wf(with_views));
                assert(env_len(with_views) > i32::MAX);
                assert(given_bases(json, parse, scale, bare_views, with_views));
                assert(Self::too_long(json, parse, scale, bare_views));
                assert(Self::unfit(xyz_str, json, read, parse, scale));
            }
            return Ok(None);
        }
        match Self::new(with) {
            Err(e) => {
                proof {
                    assert(e == CintError::AngularMomentumOutOfRange);
                    assert(Self::served(json, parse, scale, bare_views, e));
                }
                Err(e)
            },
            Ok(data) => Ok(Some(data)),
        }
    }

    /// The groups can be given their bases, and the environment buffer of
    /// the result is longer than the offsets of the records can say.
    pub open spec fn too_long<P, F>(
        json: &JsonBasis,
        parse: &P,
        scale: &F,
        bare: Seq<AtomGroupView>,
    ) -> bool where P: Fn(&String) -> Option<Binary64>, F: Fn(u8, Binary64, Binary64) -> Binary64 {
        exists|with: Seq<AtomGroupView>|
            given_bases(json, parse, scale, bare, with) && env_len(with) > i32::MAX
    }

    /// No dataset can be made of the text and the file: a basis is ill
    /// shaped, or the environment buffer would be too long.
    pub open spec fn unfit<R, P, F>(
        xyz_str: &str,
        json: &JsonBasis,
        read: &R,
        parse: &P,
        scale: &F,
    ) -> bool where
        R: Fn(&Vec<u8>) -> Option<Binary64>,
        P: Fn(&String) -> Option<Binary64>,
        F: Fn(u8, Binary64, Binary64) -> Binary64,
     {
        exists|bare: Seq<AtomGroupView>|
            #[trigger] Self::read_as(xyz_str, read, bare) && (holds_ill_shaped(json, bare) || Self::too_long(
                json,
                parse,
                scale,
                bare,
            ))
    }

    /// Serving the groups with bases fails with `e`: `MissingBasis` where
    /// the file lacks an element, `NumericParse` where the reader refuses a
    /// string, `AngularMomentumOutOfRange` where a basis has a sub-shell at
    /// or above the maximum.
    pub open spec fn served<P, F>(
        json: &JsonBasis,
        parse: &P,
        scale: &F,
        bare: Seq<AtomGroupView>,
        e: CintError,
    ) -> bool where P: Fn(&String) -> Option<Binary64>, F: Fn(u8, Binary64, Binary64) -> Binary64 {
        ||| e == CintError::MissingBasis && lacks_element(json, bare)
        ||| e == CintError::NumericParse && refuses_element(json, parse, bare)
        ||| e == CintError::AngularMomentumOutOfRange && exists|with: Seq<AtomGroupView>|
            given_bases(json, parse, scale, bare, with) && !angl_in_range(with)
    }

    /// Making the dataset fails with `e`: with the error of the text if it
    /// has one; else with `NumericParse` if the reader refuses a coordinate
    /// field; else as serving the groups with bases fails.
    pub open spec fn fails_with<R, P, F>(
        xyz_str: &str,
        json: &JsonBasis,
        read: &R,
        parse: &P,
        scale: &F,
        e: CintError,
    ) -> bool where
        R: Fn(&Vec<u8>) -> Option<Binary64>,
        P: Fn(&String) -> Option<Binary64>,
        F: Fn(u8, Binary64, Binary64) -> Binary64,
     {
        match read_text(xyz_str.spec_bytes()) {
            Err(first) => e == first,
            Ok(atoms) => {
                ||| e == CintError::NumericParse && some_refused(read, atoms)
                ||| exists|bare: Seq<AtomGroupView>|
                    #[trigger] Self::read_as(xyz_str, read, bare) && Self::served(
                        json,
                        parse,
                        scale,
                        bare,
                        e,
                    )
            },
        }
    }

    /// The groups are what the reader may make of the geometry text, with
    /// no bases.
    pub open spec fn read_as<R: Fn(&Vec<u8>) -> Option<Binary64>>(
        xyz_str: &str,
        read: &R,
        bare: Seq<AtomGroupView>,
    ) -> bool {
        &&& read_text(xyz_str.spec_bytes()) is Ok
        &&& exists|placed: Seq<(u8, [Binary64; 3])>|
            placement(read, read_text(xyz_str.spec_bytes())->Ok_0, placed) && bare == grouped(
                placed,
                None,
                256,
            )
    }

    /// The groups are what the reader may make of the geometry text, each
    /// with the basis that the file gives for its element.
    pub open spec fn sourced<R, P, F>(
        xyz_str: &str,
        json: &JsonBasis,
        read: &R,
        parse: &P,
        scale: &F,
        with: Seq<AtomGroupView>,
    ) -> bool where
        R: Fn(&Vec<u8>) -> Option<Binary64>,
        P: Fn(&String) -> Option<Binary64>,
        F: Fn(u8, Binary64, Binary64) -> Binary64,
     {
        exists|bare: Seq<AtomGroupView>|
            #[trigger] Self::read_as(xyz_str, read, bare) && given_bases(
                json,
                parse,
                scale,
                bare,
                with,
            )
    }
}

/// Groups that were given normalized bases have well-formed bases.
pub proof fn lemma_given_bases_wf<P, F>(
    json: &JsonBasis,
    parse: &P,
    scale: &F,
    bare: Seq<AtomGroupView>,
    with: Seq<AtomGroupView>,
) where P: Fn(&String) -> Option<Binary64>, F: Fn(u8, Binary64, Binary64) -> Binary64
    requires
        given_bases(json, parse, scale, bare, with),
    ensures
        cgtos_wf(with),
        all_have_basis(with),
{
    assert forall|g: int| 0 <= g < with.len() implies basis_wf(basis_of(#[trigger] with[g])) by {
        assert(given_basis(json, parse, scale, bare[g], with[g]));
        let cgtos = with[g].basis->Some_0;
        let element = json.spec_elements()[bare[g].charge_of]@;
        assert forall|k: int| 0 <= k < cgtos.len() implies (#[trigger] cgtos[k]).wf() by {
            assert(crate::io::basis::json::shell_gives(
                parse,
                scale,
                element.electron_shells[k],
                0,
                true,
                cgtos[k],
            ));
        }
    }
    assert forall|g: int| 0 <= g < with.len() implies (#[trigger] with[g]).basis is Some by {
        assert(given_basis(json, parse, scale, bare[g], with[g]));
    }
}

} // verus!
