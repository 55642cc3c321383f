//! The passes of the assembler: the checks on the atom groups, and the
//! builders of the records and of the environment buffer.
use vstd::prelude::*;
use super::binary64::{to_i32, truncated};
use super::cdata::{templates_view, CintAtom, CintBasis};
use super::layout::{ANG_MAX, ATM_SLOT, PTR_ENV_START};
use super::packing::{
    all_have_basis, angl_in_range, atmbas_blocks, atmbas_index, atom_blocks, atom_count,
    atom_record, atom_records, atoms_env, basis_blocks, basis_in_range, basis_len, basis_of,
    basis_start, basis_wf, cgto_blocks, cgto_env, cgto_in_range, cgto_records, cgtos_len,
    cgtos_wf, coords_wf, env_len, group_atom_blocks, group_start, header,
    lemma_atmbas_entry, lemma_atom_count_monotone, lemma_atom_count_next,
    lemma_basis_len_monotone, lemma_basis_len_next, lemma_cgtos_len_monotone,
    lemma_cgtos_len_next, lemma_flatten_take_next, lemma_flatten_take_none, packed_env,
    record_blocks, templates, triples,
};
use super::rawdata::{cgtos_view, coords_view, group_views, AtomGroup, AtomGroupView, CGTO};
use super::{AtomIndex, Binary64};

verus! {

/// Whether every group has a basis.
pub(crate) fn have_basis<G: AtomGroup>(atom_groups: &Vec<G>) -> (b: bool)
    ensures
        b == all_have_basis(group_views(atom_groups@)),
{
    let mut g: usize = 0;
    while g < atom_groups.len()
        invariant
            g <= atom_groups.len(),
            forall|h: int| 0 <= h < g ==> (#[trigger] group_views(atom_groups@)[h]).basis is Some,
        decreases atom_groups.len() - g,
    {
        if atom_groups[g].basis().is_none() {
            assert(group_views(atom_groups@)[g as int].basis is None);
            return false;
        }
        g += 1;
    }
    true
}

/// Whether every sub-shell of the group of functions is below the maximum.
fn cgto_below_max(cgto: &CGTO) -> (b: bool)
    ensures
        b == cgto_in_range(cgto@),
{
    let mut i: usize = 0;
    while i < cgto.angl.len()
        invariant
            i <= cgto.angl.len(),
            forall|h: int| 0 <= h < i ==> #[trigger] cgto@.angl[h] < ANG_MAX,
        decreases cgto.angl.len() - i,
    {
        if cgto.angl[i] >= ANG_MAX {
            assert(!(cgto@.angl[i as int] < ANG_MAX));
            return false;
        }
        i += 1;
    }
    true
}

/// Whether every sub-shell of every group is below the maximum.
pub(crate) fn angl_below_max<G: AtomGroup>(atom_groups: &Vec<G>) -> (b: bool)
    ensures
        b == angl_in_range(group_views(atom_groups@)),
{
    let ghost views = group_views(atom_groups@);
    let mut g: usize = 0;
    while g < atom_groups.len()
        invariant
            views == group_views(atom_groups@),
            g <= atom_groups.len(),
            forall|h: int| 0 <= h < g ==> basis_in_range(basis_of(#[trigger] views[h])),
        decreases atom_groups.len() - g,
    {
        match atom_groups[g].basis() {
            None => {},
            Some(cgtos) => {
                let ghost basis = basis_of(views[g as int]);
                assert(basis == cgtos_view(cgtos@));
                let mut k: usize = 0;
                while k < cgtos.len()
                    invariant
                        views == group_views(atom_groups@),
                        basis == cgtos_view(cgtos@),
                        basis == basis_of(views[g as int]),
                        g < atom_groups.len(),
                        k <= cgtos.len(),
                        forall|h: int| 0 <= h < k ==> cgto_in_range(#[trigger] basis[h]),
                    decreases cgtos.len() - k,
                {
                    if !cgto_below_max(&cgtos[k]) {
                        assert(!cgto_in_range(basis[k as int]));
                        assert(!basis_in_range(basis_of(views[g as int])));
                        return false;
                    }
                    k += 1;
                }
            },
        }
        g += 1;
    }
    true
}

/// The number of physical atoms.
pub(crate) fn count_atoms<G: AtomGroup>(atom_groups: &Vec<G>) -> (natm: usize)
    requires
        atom_count(group_views(atom_groups@)) <= usize::MAX,
    ensures
        natm == atom_count(group_views(atom_groups@)),
        coords_wf(group_views(atom_groups@)),
{
    let ghost views = group_views(atom_groups@);
    let mut natm: usize = 0;
    let mut g: usize = 0;
    proof {
        assert(views.take(0) =~= Seq::<AtomGroupView>::empty());
    }
    while g < atom_groups.len()
        invariant
            views == group_views(atom_groups@),
            atom_count(views) <= usize::MAX,
            g <= atom_groups.len(),
            natm == atom_count(views.take(g as int)),
            forall|h: int| 0 <= h < g ==> triples((#[trigger] views[h]).coordinates),
        decreases atom_groups.len() - g,
    {
        proof {
            lemma_atom_count_next(views, g as int);
            lemma_atom_count_monotone(views, g + 1);
        }
        let coordinates = atom_groups[g].coordinates();
        proof {
            assert forall|j: int| 0 <= j < coordinates@.len() implies (#[trigger] coords_view(
                coordinates@,
            )[j]).len() == 3 by {
                assert(coordinates@[j]@.len() == 3);
            }
        }
        natm += coordinates.len();
        g += 1;
    }
    proof {
        assert(views.take(g as int) =~= views);
    }
    natm
}

/// The basis templates, with the offsets that the environment buffer gives
/// to their exponents and coefficients.
#[verifier::rlimit(50)]
pub(crate) fn build_templates<G: AtomGroup>(atom_groups: &Vec<G>, natm: usize) -> (out: Vec<Vec<CintBasis>>)
    requires
        all_have_basis(group_views(atom_groups@)),
        cgtos_wf(group_views(atom_groups@)),
        env_len(group_views(atom_groups@)) <= i32::MAX,
        natm == atom_count(group_views(atom_groups@)),
    ensures
        templates_view(out@) == templates(group_views(atom_groups@)),
{
    let ghost views = group_views(atom_groups@);
    let mut ptr_exp: usize = PTR_ENV_START + natm * ATM_SLOT;
    let mut ptr_coeff: usize = ptr_exp;
    let mut out: Vec<Vec<CintBasis>> = Vec::new();
    let mut g: usize = 0;
    proof {
        assert(views.take(0) =~= Seq::<AtomGroupView>::empty());
    }
    while g < atom_groups.len()
        invariant
            views == group_views(atom_groups@),
            all_have_basis(views),
            cgtos_wf(views),
            env_len(views) <= i32::MAX,
            g <= atom_groups.len(),
            out@.len() == g,
            forall|h: int| 0 <= h < g ==> (#[trigger] out@[h])@ == templates(views)[h],
            ptr_exp == group_start(views, g as int),
            ptr_coeff == ptr_exp,
        decreases atom_groups.len() - g,
    {
        let mut template: Vec<CintBasis> = Vec::new();
        let ghost basis = basis_of(views[g as int]);
        let ghost gs = group_start(views, g as int);
        proof {
            lemma_basis_len_next(views, g as int);
            lemma_basis_len_monotone(views, g + 1);
            assert(views[g as int].basis is Some);
            assert(basis_wf(basis));
        }
        match atom_groups[g].basis() {
            None => {},
            Some(cgtos) => {
                assert(cgtos_view(cgtos@) == basis);
                let mut k: usize = 0;
                proof {
                    lemma_flatten_take_none(record_blocks(basis, gs));
                    assert(basis.take(0) =~= Seq::empty());
                }
                while k < cgtos.len()
                    invariant
                        k <= cgtos.len(),
                        cgtos_view(cgtos@) == basis,
                        basis_wf(basis),
                        0 <= gs,
                        gs + cgtos_len(basis) <= i32::MAX,
                        template@ == record_blocks(basis, gs).take(k as int).flatten(),
                        ptr_exp == gs + cgtos_len(basis.take(k as int)),
                        ptr_coeff == ptr_exp,
                    decreases cgtos.len() - k,
                {
                    let cgto = &cgtos[k];
                    let n = cgto.exp.len();
                    let ghost c = basis[k as int];
                    let ghost start = ptr_exp as int;
                    proof {
                        lemma_cgtos_len_next(basis, k as int);
                        lemma_cgtos_len_monotone(basis, k + 1);
                        assert(c == cgto@);
                        assert(c.wf());
                        assert(cgto.coeff@.len() == c.angl.len());
                        assert(n <= n * (c.angl.len() + 1) && n * (0 + 1) == n) by (nonlinear_arith)
                            requires
                                0 <= n,
                                0 <= c.angl.len(),
                        ;
                    }
                    ptr_coeff += n;
                    let mut i: usize = 0;
                    while i < cgto.angl.len()
                        invariant
                            i <= cgto.angl.len(),
                            cgto@ == c,
                            cgto.coeff@.len() == c.angl.len(),
                            n == c.exp.len(),
                            0 <= start,
                            start + n * (c.angl.len() + 1) <= i32::MAX,
                            ptr_exp == start,
                            ptr_coeff == start + n * (i + 1),
                            template@ == record_blocks(basis, gs).take(k as int).flatten()
                                + cgto_records(c, start).take(i as int),
                        decreases cgto.angl.len() - i,
                    {
                        proof {
                            assert(n * (i + 2) <= n * (c.angl.len() + 1) && n * (i + 1) + n == n * (
                            i + 2) && n <= n * (c.angl.len() + 1)) by (nonlinear_arith)
                                requires
                                    0 <= i < c.angl.len(),
                                    0 <= n,
                            ;
                        }
                        let rec = cgto.gen_bas(i, ptr_exp as i32, ptr_coeff as i32);
                        template.push(rec);
                        ptr_coeff += n;
                        proof {
                            assert(cgto_records(c, start).take(i + 1) =~= cgto_records(
                                c,
                                start,
                            ).take(i as int).push(rec));
                        }
                        i += 1;
                    }
                    proof {
                        assert(cgto_records(c, start).take(i as int) =~= cgto_records(c, start));
                        lemma_flatten_take_next(record_blocks(basis, gs), k as int);
                    }
                    let rows = cgto.coeff.len();
                    proof {
                        assert(n * rows + n == n * (c.angl.len() + 1) && n * rows >= 0)
                            by (nonlinear_arith)
                            requires
                                rows == c.angl.len(),
                                n >= 0,
                        ;
                    }
                    ptr_exp += n * rows + n;
                    k += 1;
                }
                proof {
                    assert(record_blocks(basis, gs).take(k as int) =~= record_blocks(basis, gs));
                    assert(basis.take(k as int) =~= basis);
                }
            },
        }
        out.push(template);
        g += 1;
    }
    proof {
        assert(templates_view(out@) =~= templates(views));
    }
    out
}

/// The atom-to-basis mapping.
pub(crate) fn build_atmbas<G: AtomGroup>(atom_groups: &Vec<G>) -> (out: Vec<AtomIndex>)
    ensures
        out@ == atmbas_index(group_views(atom_groups@)),
{
    let ghost views = group_views(atom_groups@);
    let ghost blocks = atmbas_blocks(views);
    let mut out: Vec<AtomIndex> = Vec::new();
    let mut g: usize = 0;
    proof {
        lemma_flatten_take_none(blocks);
    }
    while g < atom_groups.len()
        invariant
            views == group_views(atom_groups@),
            blocks == atmbas_blocks(views),
            g <= atom_groups.len(),
            out@ == blocks.take(g as int).flatten(),
        decreases atom_groups.len() - g,
    {
        let count = atom_groups[g].coordinates().len();
        let mut j: usize = 0;
        while j < count
            invariant
                views == group_views(atom_groups@),
                blocks == atmbas_blocks(views),
                g < atom_groups.len(),
                count == views[g as int].coordinates.len(),
                j <= count,
                out@ == blocks.take(g as int).flatten() + blocks[g as int].take(j as int),
            decreases count - j,
        {
            out.push(g);
            proof {
                assert(blocks[g as int].take(j + 1) =~= blocks[g as int].take(j as int).push(g));
            }
            j += 1;
        }
        proof {
            assert(blocks[g as int].take(j as int) =~= blocks[g as int]);
            lemma_flatten_take_next(blocks, g as int);
        }
        g += 1;
    }
    proof {
        assert(blocks.take(g as int) =~= blocks);
    }
    out
}

/// The atom records.
#[verifier::rlimit(50)]
pub(crate) fn build_atoms<G: AtomGroup>(atom_groups: &Vec<G>) -> (out: Vec<CintAtom>)
    requires
        env_len(group_views(atom_groups@)) <= i32::MAX,
    ensures
        out@ == atom_records(group_views(atom_groups@)),
{
    let ghost views = group_views(atom_groups@);
    let mut out: Vec<CintAtom> = Vec::new();
    let mut iatm: usize = 0;
    let mut g: usize = 0;
    proof {
        assert(views.take(0) =~= Seq::<AtomGroupView>::empty());
    }
    while g < atom_groups.len()
        invariant
            views == group_views(atom_groups@),
            env_len(views) <= i32::MAX,
            g <= atom_groups.len(),
            iatm == atom_count(views.take(g as int)),
            out@.len() == iatm,
            forall|a: int|
                0 <= a < iatm ==> #[trigger] out@[a] == atom_record(
                    views[atmbas_index(views)[a] as int],
                    a,
                ),
        decreases atom_groups.len() - g,
    {
        let group = &atom_groups[g];
        let count = group.coordinates().len();
        let charge_of = *group.charge_of();
        let nuc_mod_of = *group.nuc_mod_of();
        let frac_charge = to_i32(*group.frac_charge());
        let ghost first = iatm as int;
        let mut j: usize = 0;
        while j < count
            invariant
                views == group_views(atom_groups@),
                env_len(views) <= i32::MAX,
                g < atom_groups.len(),
                count == views[g as int].coordinates.len(),
                charge_of == views[g as int].charge_of,
                nuc_mod_of == views[g as int].nuc_mod_of,
                frac_charge == truncated_charge(views[g as int]),
                first == atom_count(views.take(g as int)),
                j <= count,
                iatm == first + j,
                out@.len() == iatm,
                forall|a: int|
                    0 <= a < iatm ==> #[trigger] out@[a] == atom_record(
                        views[atmbas_index(views)[a] as int],
                        a,
                    ),
            decreases count - j,
        {
            proof {
                lemma_atmbas_entry(views, g as int, j as int);
            }
            let coord_i = PTR_ENV_START + iatm * ATM_SLOT;
            let zeta_i = coord_i + 3;
            out.push(
                CintAtom {
                    charge_of: charge_of as i32,
                    coord: coord_i as i32,
                    nuc_mod_of: nuc_mod_of as i32,
                    zeta: zeta_i as i32,
                    frac_charge,
                    reserve_atmslot: 0,
                },
            );
            iatm += 1;
            j += 1;
        }
        proof {
            lemma_atom_count_next(views, g as int);
        }
        g += 1;
    }
    proof {
        assert(views.take(g as int) =~= views);
        assert(out@ =~= atom_records(views));
    }
    out
}

/// The fractional charge of a group as the integer that its atom records
/// hold.
pub open spec fn truncated_charge(group: AtomGroupView) -> i32 {
    truncated(group.frac_charge) as i32
}

/// Appends the slots of one group of functions: its exponents, then its
/// coefficient rows.
fn push_cgto(data: &mut Vec<Binary64>, cgto: &CGTO)
    ensures
        final(data)@ == old(data)@ + cgto_env(cgto@),
{
    let ghost base = data@;
    let ghost c = cgto@;
    let mut p: usize = 0;
    while p < cgto.exp.len()
        invariant
            p <= cgto.exp.len(),
            data@ == base + cgto.exp@.take(p as int),
        decreases cgto.exp.len() - p,
    {
        data.push(cgto.exp[p]);
        proof {
            assert(data@ =~= base + cgto.exp@.take(p + 1));
        }
        p += 1;
    }
    proof {
        assert(cgto.exp@.take(p as int) =~= c.exp);
        lemma_flatten_take_none(c.coeff);
        assert(data@ =~= base + c.exp + c.coeff.take(0).flatten());
    }
    let mut i: usize = 0;
    while i < cgto.coeff.len()
        invariant
            c == cgto@,
            i <= cgto.coeff.len(),
            data@ == base + c.exp + c.coeff.take(i as int).flatten(),
        decreases cgto.coeff.len() - i,
    {
        let row = &cgto.coeff[i];
        let ghost before = data@;
        let mut q: usize = 0;
        while q < row.len()
            invariant
                q <= row.len(),
                data@ == before + row@.take(q as int),
            decreases row.len() - q,
        {
            data.push(row[q]);
            proof {
                assert(data@ =~= before + row@.take(q + 1));
            }
            q += 1;
        }
        proof {
            assert(row@.take(q as int) =~= row@);
            assert(c.coeff[i as int] == row@);
            lemma_flatten_take_next(c.coeff, i as int);
            assert(data@ =~= base + c.exp + c.coeff.take(i + 1).flatten());
        }
        i += 1;
    }
    proof {
        assert(c.coeff.take(i as int) =~= c.coeff);
        assert(data@ =~= base + cgto_env(c));
    }
}

/// The environment buffer: the zeroed header, the slots of every atom,
/// then the slots of every basis.
#[verifier::rlimit(50)]
pub(crate) fn build_env<G: AtomGroup>(atom_groups: &Vec<G>) -> (data: Vec<Binary64>)
    ensures
        data@ == packed_env(group_views(atom_groups@)),
{
    let ghost views = group_views(atom_groups@);
    let mut data: Vec<Binary64> = Vec::new();
    let mut h: usize = 0;
    while h < PTR_ENV_START
        invariant
            h <= PTR_ENV_START,
            data@ == header().take(h as int),
        decreases PTR_ENV_START - h,
    {
        data.push(0);
        proof {
            assert(data@ =~= header().take(h + 1));
        }
        h += 1;
    }
    proof {
        assert(header().take(h as int) =~= header());
        lemma_flatten_take_none(atom_blocks(views));
        assert(data@ =~= header() + atom_blocks(views).take(0).flatten());
    }
    let mut g: usize = 0;
    while g < atom_groups.len()
        invariant
            views == group_views(atom_groups@),
            g <= atom_groups.len(),
            data@ == header() + atom_blocks(views).take(g as int).flatten(),
        decreases atom_groups.len() - g,
    {
        let group = &atom_groups[g];
        let coordinates = group.coordinates();
        let zeta = *group.zeta();
        let ghost before = data@;
        let ghost inner = group_atom_blocks(views[g as int]);
        proof {
            lemma_flatten_take_none(inner);
        }
        let mut j: usize = 0;
        while j < coordinates.len()
            invariant
                views == group_views(atom_groups@),
                g < atom_groups.len(),
                coords_view(coordinates@) == views[g as int].coordinates,
                zeta == views[g as int].zeta,
                inner == group_atom_blocks(views[g as int]),
                j <= coordinates.len(),
                data@ == before + inner.take(j as int).flatten(),
            decreases coordinates.len() - j,
        {
            let xyz = &coordinates[j];
            let ghost slots = data@;
            data.push(xyz[0]);
            data.push(xyz[1]);
            data.push(xyz[2]);
            data.push(zeta);
            proof {
                assert(views[g as int].coordinates[j as int] == xyz@);
                assert(data@ =~= slots + inner[j as int]);
                lemma_flatten_take_next(inner, j as int);
                assert(data@ =~= before + inner.take(j + 1).flatten());
            }
            j += 1;
        }
        proof {
            assert(inner.take(j as int) =~= inner);
            lemma_flatten_take_next(atom_blocks(views), g as int);
            assert(data@ =~= header() + atom_blocks(views).take(g + 1).flatten());
        }
        g += 1;
    }
    proof {
        assert(atom_blocks(views).take(g as int) =~= atom_blocks(views));
        lemma_flatten_take_none(basis_blocks(views));
        assert(data@ =~= header() + atoms_env(views) + basis_blocks(views).take(0).flatten());
    }
    let mut g: usize = 0;
    while g < atom_groups.len()
        invariant
            views == group_views(atom_groups@),
            g <= atom_groups.len(),
            data@ == header() + atoms_env(views) + basis_blocks(views).take(g as int).flatten(),
        decreases atom_groups.len() - g,
    {
        let ghost before = data@;
        let ghost basis = basis_of(views[g as int]);
        let ghost inner = cgto_blocks(basis);
        proof {
            lemma_flatten_take_none(inner);
            assert(data@ =~= before + inner.take(0).flatten());
        }
        match atom_groups[g].basis() {
            None => {
                proof {
                    assert(inner.take(0) =~= inner);
                }
            },
            Some(cgtos) => {
                assert(cgtos_view(cgtos@) == basis);
                let mut k: usize = 0;
                while k < cgtos.len()
                    invariant
                        cgtos_view(cgtos@) == basis,
                        inner == cgto_blocks(basis),
                        k <= cgtos.len(),
                        data@ == before + inner.take(k as int).flatten(),
                    decreases cgtos.len() - k,
                {
                    let ghost slots = data@;
                    push_cgto(&mut data, &cgtos[k]);
                    proof {
                        assert(inner[k as int] == cgto_env(cgtos@[k as int]@));
                        lemma_flatten_take_next(inner, k as int);
                        assert(data@ =~= before + inner.take(k + 1).flatten());
                    }
                    k += 1;
                }
                proof {
                    assert(inner.take(k as int) =~= inner);
                }
            },
        }
        proof {
            lemma_flatten_take_next(basis_blocks(views), g as int);
            assert(data@ =~= header() + atoms_env(views) + basis_blocks(views).take(
                g + 1,
            ).flatten());
        }
        g += 1;
    }
    proof {
        assert(basis_blocks(views).take(g as int) =~= basis_blocks(views));
    }
    data
}

/// Whether every group of functions of every basis is well formed.
pub(crate) fn bases_wf<G: AtomGroup>(atom_groups: &Vec<G>) -> (b: bool)
    ensures
        b == cgtos_wf(group_views(atom_groups@)),
{
    let ghost views = group_views(atom_groups@);
    let mut g: usize = 0;
    while g < atom_groups.len()
        invariant
            views == group_views(atom_groups@),
            g <= atom_groups.len(),
            forall|h: int| 0 <= h < g ==> basis_wf(basis_of(#[trigger] views[h])),
        decreases atom_groups.len() - g,
    {
        match atom_groups[g].basis() {
            None => {},
            Some(cgtos) => {
                let ghost basis = basis_of(views[g as int]);
                assert(basis == cgtos_view(cgtos@));
                let mut k: usize = 0;
                while k < cgtos.len()
                    invariant
                        views == group_views(atom_groups@),
                        basis == cgtos_view(cgtos@),
                        basis == basis_of(views[g as int]),
                        g < atom_groups.len(),
                        k <= cgtos.len(),
                        forall|h: int| 0 <= h < k ==> (#[trigger] basis[h]).wf(),
                    decreases cgtos.len() - k,
                {
                    if !cgtos[k].is_wf() {
                        assert(!basis[k as int].wf());
                        assert(!basis_wf(basis_of(views[g as int])));
                        return false;
                    }
                    k += 1;
                }
            },
        }
        g += 1;
    }
    true
}

/// Whether the environment buffer stays within the offsets that a record
/// can hold.
#[verifier::rlimit(50)]
pub(crate) fn env_fits<G: AtomGroup>(atom_groups: &Vec<G>) -> (b: bool)
    ensures
        b == (env_len(group_views(atom_groups@)) <= i32::MAX),
{
    let ghost views = group_views(atom_groups@);
    let limit: usize = 0x7fff_ffff;
    let mut used: usize = PTR_ENV_START;
    let mut g: usize = 0;
    proof {
        assert(views.take(0) =~= Seq::<AtomGroupView>::empty());
    }
    while g < atom_groups.len()
        invariant
            views == group_views(atom_groups@),
            limit == i32::MAX,
            g <= atom_groups.len(),
            used == basis_start(views.take(g as int)),
            used <= limit,
        decreases atom_groups.len() - g,
    {
        let count = atom_groups[g].coordinates().len();
        proof {
            lemma_atom_count_next(views, g as int);
            lemma_atom_count_monotone(views, g + 1);
        }
        if count > (limit - used) / ATM_SLOT {
            return false;
        }
        used += ATM_SLOT * count;
        g += 1;
    }
    proof {
        assert(views.take(g as int) =~= views);
        assert(views.take(0) =~= Seq::<AtomGroupView>::empty());
    }
    let mut g: usize = 0;
    while g < atom_groups.len()
        invariant
            views == group_views(atom_groups@),
            limit == i32::MAX,
            g <= atom_groups.len(),
            used == basis_start(views) + basis_len(views.take(g as int)),
            used <= limit,
        decreases atom_groups.len() - g,
    {
        let ghost basis = basis_of(views[g as int]);
        let ghost before = used as int;
        proof {
            lemma_basis_len_next(views, g as int);
            lemma_basis_len_monotone(views, g + 1);
            assert(basis.take(0) =~= Seq::empty());
        }
        match atom_groups[g].basis() {
            None => {},
            Some(cgtos) => {
                assert(cgtos_view(cgtos@) == basis);
                let mut k: usize = 0;
                while k < cgtos.len()
                    invariant
                        views == group_views(atom_groups@),
                        cgtos_view(cgtos@) == basis,
                        limit == i32::MAX,
                        k <= cgtos.len(),
                        used == before + cgtos_len(basis.take(k as int)),
                        used <= limit,
                        before + cgtos_len(basis) <= env_len(views),
                    decreases cgtos.len() - k,
                {
                    let n = cgtos[k].exp.len();
                    let shells = cgtos[k].angl.len();
                    proof {
                        lemma_cgtos_len_next(basis, k as int);
                        lemma_cgtos_len_monotone(basis, k + 1);
                        assert(basis[k as int].env_len() == n * (shells + 1));
                    }
                    if n > 0 {
                        let room = (limit - used) / n;
                        if shells >= room {
                            proof {
                                assert(n * (shells + 1) > limit - used) by (nonlinear_arith)
                                    requires
                                        n > 0,
                                        shells >= room,
                                        room == (limit - used) / (n as int),
                                ;
                            }
                            return false;
                        }
                        proof {
                            assert(n * (shells + 1) <= limit - used) by (nonlinear_arith)
                                requires
                                    n > 0,
                                    0 <= limit - used,
                                    shells < room,
                                    room == (limit - used) / (n as int),
                            ;
                        }
                        used += n * (shells + 1);
                    } else {
                        proof {
                            assert(n * (shells + 1) == 0) by (nonlinear_arith)
                                requires
                                    n == 0,
                            ;
                        }
                    }
                    k += 1;
                }
                proof {
                    assert(basis.take(k as int) =~= basis);
                }
            },
        }
        g += 1;
    }
    proof {
        assert(views.take(g as int) =~= views);
    }
    true
}

} // verus!
