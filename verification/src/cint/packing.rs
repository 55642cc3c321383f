//! The packed layout as mathematics: what the environment buffer holds,
//! which records describe it, and why the offsets in the records point at
//! the values they stand for.
use vstd::prelude::*;
use super::{AtomIndex, BasisIndex, Binary64};
use super::binary64::truncated;
use super::cdata::{CintAtom, CintBasis};
use super::layout::{ANG_MAX, ATM_SLOT, PTR_ENV_START};
use super::rawdata::{template_record, AtomGroupView, CgtoView};

verus! {

// ---------------------------------------------------------------------
// Blocks laid end to end
// ---------------------------------------------------------------------

/// The position at which block `k` starts when the blocks are laid end to
/// end: the total length of the blocks before it.
pub open spec fn block_start<T>(blocks: Seq<Seq<T>>, k: int) -> nat {
    blocks.take(k).flatten().len()
}

/// Laying one more block at the end appends it.
pub proof fn lemma_flatten_take_next<T>(blocks: Seq<Seq<T>>, k: int)
    requires
        0 <= k < blocks.len(),
    ensures
        blocks.take(k + 1).flatten() == blocks.take(k).flatten() + blocks[k],
        block_start(blocks, k + 1) == block_start(blocks, k) + blocks[k].len(),
{
    assert(blocks.take(k + 1) =~= blocks.take(k).push(blocks[k]));
    blocks.take(k).lemma_flatten_push(blocks[k]);
}

/// No blocks, nothing laid.
pub proof fn lemma_flatten_take_none<T>(blocks: Seq<Seq<T>>)
    ensures
        blocks.take(0).flatten() == Seq::<T>::empty(),
        block_start(blocks, 0) == 0,
{
    assert(blocks.take(0) =~= Seq::<Seq<T>>::empty());
    assert(Seq::<Seq<T>>::empty().flatten() =~= Seq::<T>::empty());
}

/// Element `q` of block `k` lies at `block_start(blocks, k) + q`.
pub proof fn lemma_block_index<T>(blocks: Seq<Seq<T>>, k: int, q: int)
    requires
        0 <= k < blocks.len(),
        0 <= q < blocks[k].len(),
    ensures
        block_start(blocks, k) + q < blocks.flatten().len(),
        blocks.flatten()[block_start(blocks, k) + q] == blocks[k][q],
    decreases blocks.len(),
{
    let front = blocks.drop_last();
    assert(blocks =~= front.push(blocks.last()));
    front.lemma_flatten_push(blocks.last());
    assert(blocks.flatten() =~= front.flatten() + blocks.last());
    if k == blocks.len() - 1 {
        assert(blocks.take(k) =~= front);
    } else {
        assert(front.take(k) =~= blocks.take(k));
        lemma_block_index(front, k, q);
    }
}

/// Blocks of one common length take that length times their number.
pub proof fn lemma_flatten_uniform<T>(blocks: Seq<Seq<T>>, n: nat)
    requires
        forall|i: int| 0 <= i < blocks.len() ==> (#[trigger] blocks[i]).len() == n,
    ensures
        blocks.flatten().len() == blocks.len() * n,
    decreases blocks.len(),
{
    if blocks.len() == 0 {
        assert(blocks =~= Seq::<Seq<T>>::empty());
        assert(blocks.flatten() =~= Seq::<T>::empty());
        assert(blocks.len() * n == 0) by (nonlinear_arith)
            requires
                blocks.len() == 0,
        ;
    } else {
        let front = blocks.drop_last();
        assert(blocks =~= front.push(blocks.last()));
        front.lemma_flatten_push(blocks.last());
        lemma_flatten_uniform(front, n);
        assert(front.len() * n + n == blocks.len() * n) by (nonlinear_arith)
            requires
                front.len() + 1 == blocks.len(),
        ;
    }
}

// ---------------------------------------------------------------------
// The input
// ---------------------------------------------------------------------

/// The basis of a group; no groups of functions where none is assigned.
pub open spec fn basis_of(group: AtomGroupView) -> Seq<CgtoView> {
    match group.basis {
        Some(cgtos) => cgtos,
        None => Seq::empty(),
    }
}

/// Every group has a basis.
pub open spec fn all_have_basis(groups: Seq<AtomGroupView>) -> bool {
    forall|g: int| 0 <= g < groups.len() ==> (#[trigger] groups[g]).basis is Some
}

/// Every sub-shell of the group of functions stays below the maximal
/// angular momentum.
pub open spec fn cgto_in_range(cgto: CgtoView) -> bool {
    forall|i: int| 0 <= i < cgto.angl.len() ==> #[trigger] cgto.angl[i] < ANG_MAX
}

/// Every sub-shell of the basis stays below the maximal angular momentum.
pub open spec fn basis_in_range(cgtos: Seq<CgtoView>) -> bool {
    forall|k: int| 0 <= k < cgtos.len() ==> cgto_in_range(#[trigger] cgtos[k])
}

/// Every sub-shell of every group stays below the maximal angular momentum.
pub open spec fn angl_in_range(groups: Seq<AtomGroupView>) -> bool {
    forall|g: int| 0 <= g < groups.len() ==> basis_in_range(basis_of(#[trigger] groups[g]))
}

/// Every group of functions of the basis has one coefficient row per
/// sub-shell and one coefficient per exponent.
pub open spec fn basis_wf(cgtos: Seq<CgtoView>) -> bool {
    forall|k: int| 0 <= k < cgtos.len() ==> (#[trigger] cgtos[k]).wf()
}

/// Every basis is well formed.
pub open spec fn cgtos_wf(groups: Seq<AtomGroupView>) -> bool {
    forall|g: int| 0 <= g < groups.len() ==> basis_wf(basis_of(#[trigger] groups[g]))
}

/// Every coordinate entry of the group is a triple.
pub open spec fn triples(coordinates: Seq<Seq<Binary64>>) -> bool {
    forall|j: int| 0 <= j < coordinates.len() ==> (#[trigger] coordinates[j]).len() == 3
}

/// Every coordinate entry of every group is a triple.
pub open spec fn coords_wf(groups: Seq<AtomGroupView>) -> bool {
    forall|g: int| 0 <= g < groups.len() ==> triples((#[trigger] groups[g]).coordinates)
}

// ---------------------------------------------------------------------
// Counting
// ---------------------------------------------------------------------

/// Number of physical atoms: the coordinate entries of all groups.
pub open spec fn atom_count(groups: Seq<AtomGroupView>) -> nat
    decreases groups.len(),
{
    if groups.len() == 0 {
        0
    } else {
        atom_count(groups.drop_last()) + groups.last().coordinates.len()
    }
}

/// Number of sub-shells of a basis.
pub open spec fn subshell_count(cgtos: Seq<CgtoView>) -> nat
    decreases cgtos.len(),
{
    if cgtos.len() == 0 {
        0
    } else {
        subshell_count(cgtos.drop_last()) + cgtos.last().angl.len()
    }
}

/// Number of environment slots of a basis: for each group of functions its
/// exponents and as many coefficients for each sub-shell.
pub open spec fn cgtos_len(cgtos: Seq<CgtoView>) -> nat
    decreases cgtos.len(),
{
    if cgtos.len() == 0 {
        0
    } else {
        cgtos_len(cgtos.drop_last()) + cgtos.last().env_len()
    }
}

/// Number of environment slots of the bases of all groups.
pub open spec fn basis_len(groups: Seq<AtomGroupView>) -> nat
    decreases groups.len(),
{
    if groups.len() == 0 {
        0
    } else {
        basis_len(groups.drop_last()) + cgtos_len(basis_of(groups.last()))
    }
}

/// The slot at which basis data starts: after the header and the atoms.
pub open spec fn basis_start(groups: Seq<AtomGroupView>) -> nat {
    PTR_ENV_START as nat + ATM_SLOT as nat * atom_count(groups)
}

/// Length of the environment buffer: the header, four slots per atom, and
/// the slots of every basis.
pub open spec fn env_len(groups: Seq<AtomGroupView>) -> nat {
    basis_start(groups) + basis_len(groups)
}

// ---------------------------------------------------------------------
// The environment buffer
// ---------------------------------------------------------------------

/// The header: zero in every slot.
pub open spec fn header() -> Seq<Binary64> {
    Seq::new(PTR_ENV_START as nat, |i: int| 0u64)
}

/// The four slots of one atom: its coordinates and the width of its group.
pub open spec fn atom_slots(coordinates: Seq<Binary64>, zeta: Binary64) -> Seq<Binary64> {
    seq![coordinates[0], coordinates[1], coordinates[2], zeta]
}

/// The slots of each atom of a group.
pub open spec fn group_atom_blocks(group: AtomGroupView) -> Seq<Seq<Binary64>> {
    Seq::new(group.coordinates.len(), |j: int| atom_slots(group.coordinates[j], group.zeta))
}

/// The atom slots of each group.
pub open spec fn atom_blocks(groups: Seq<AtomGroupView>) -> Seq<Seq<Binary64>> {
    Seq::new(groups.len(), |g: int| group_atom_blocks(groups[g]).flatten())
}

/// The atom region: the slots of every atom, group after group.
pub open spec fn atoms_env(groups: Seq<AtomGroupView>) -> Seq<Binary64> {
    atom_blocks(groups).flatten()
}

/// The slots of one group of functions: the exponents, then the coefficient
/// rows.
pub open spec fn cgto_env(cgto: CgtoView) -> Seq<Binary64> {
    cgto.exp + cgto.coeff.flatten()
}

/// The slots of each group of functions of a basis.
pub open spec fn cgto_blocks(cgtos: Seq<CgtoView>) -> Seq<Seq<Binary64>> {
    Seq::new(cgtos.len(), |k: int| cgto_env(cgtos[k]))
}

/// The basis slots of each group.
pub open spec fn basis_blocks(groups: Seq<AtomGroupView>) -> Seq<Seq<Binary64>> {
    Seq::new(groups.len(), |g: int| cgto_blocks(basis_of(groups[g])).flatten())
}

/// The basis region: the slots of every basis, group after group.
pub open spec fn basis_env(groups: Seq<AtomGroupView>) -> Seq<Binary64> {
    basis_blocks(groups).flatten()
}

/// The environment buffer as assembled: header, atom region, basis region.
pub open spec fn packed_env(groups: Seq<AtomGroupView>) -> Seq<Binary64> {
    header() + atoms_env(groups) + basis_env(groups)
}

// ---------------------------------------------------------------------
// The records
// ---------------------------------------------------------------------

/// For each physical atom the index of its group.
pub open spec fn atmbas_blocks(groups: Seq<AtomGroupView>) -> Seq<Seq<usize>> {
    Seq::new(groups.len(), |g: int| Seq::new(groups[g].coordinates.len(), |j: int| g as usize))
}

/// The atom-to-basis mapping: each group's index, once per atom of the group.
pub open spec fn atmbas_index(groups: Seq<AtomGroupView>) -> Seq<usize> {
    atmbas_blocks(groups).flatten()
}

/// The record of the atom with sequence number `seq_no`, an atom of `group`.
pub open spec fn atom_record(group: AtomGroupView, seq_no: int) -> CintAtom {
    CintAtom {
        charge_of: group.charge_of as i32,
        coord: (PTR_ENV_START + ATM_SLOT * seq_no) as i32,
        nuc_mod_of: group.nuc_mod_of as i32,
        zeta: (PTR_ENV_START + ATM_SLOT * seq_no + 3) as i32,
        frac_charge: truncated(group.frac_charge) as i32,
        reserve_atmslot: 0,
    }
}

/// The atom records, one per physical atom in declaration order.
pub open spec fn atom_records(groups: Seq<AtomGroupView>) -> Seq<CintAtom> {
    Seq::new(
        atom_count(groups),
        |a: int| atom_record(groups[atmbas_index(groups)[a] as int], a),
    )
}

/// The template records of one group of functions whose slots start at
/// `start`: one per sub-shell, all naming the exponents at `start`, each
/// naming its own coefficient row after them.
pub open spec fn cgto_records(cgto: CgtoView, start: int) -> Seq<CintBasis> {
    Seq::new(
        cgto.angl.len(),
        |i: int| template_record(cgto, i, start, start + cgto.exp.len() * (i + 1)),
    )
}

/// The template records of each group of functions of a basis whose slots
/// start at `start`.
pub open spec fn record_blocks(cgtos: Seq<CgtoView>, start: int) -> Seq<Seq<CintBasis>> {
    Seq::new(cgtos.len(), |k: int| cgto_records(cgtos[k], start + cgtos_len(cgtos.take(k))))
}

/// The template of a basis whose slots start at `start`: the records of its
/// groups of functions in order.
pub open spec fn basis_records(cgtos: Seq<CgtoView>, start: int) -> Seq<CintBasis> {
    record_blocks(cgtos, start).flatten()
}

/// The slot at which the basis of group `g` starts.
pub open spec fn group_start(groups: Seq<AtomGroupView>, g: int) -> int {
    (basis_start(groups) + basis_len(groups.take(g))) as int
}

/// The basis templates, one per group.
pub open spec fn templates(groups: Seq<AtomGroupView>) -> Seq<Seq<CintBasis>> {
    Seq::new(groups.len(), |g: int| basis_records(basis_of(groups[g]), group_start(groups, g)))
}

// ---------------------------------------------------------------------
// Counting, one group further
// ---------------------------------------------------------------------

/// The atoms of the first `g + 1` groups are those of the first `g` and
/// those of group `g`.
pub proof fn lemma_atom_count_next(groups: Seq<AtomGroupView>, g: int)
    requires
        0 <= g < groups.len(),
    ensures
        atom_count(groups.take(g + 1)) == atom_count(groups.take(g)) + groups[g].coordinates.len(),
{
    assert(groups.take(g + 1).drop_last() =~= groups.take(g));
}

/// The atoms of the first `g` groups are among the atoms of all.
pub proof fn lemma_atom_count_monotone(groups: Seq<AtomGroupView>, g: int)
    requires
        0 <= g <= groups.len(),
    ensures
        atom_count(groups.take(g)) <= atom_count(groups),
    decreases groups.len() - g,
{
    if g == groups.len() {
        assert(groups.take(g) =~= groups);
    } else {
        lemma_atom_count_next(groups, g);
        lemma_atom_count_monotone(groups, g + 1);
    }
}

/// The sub-shells of the first `k + 1` groups of functions.
pub proof fn lemma_subshell_count_next(cgtos: Seq<CgtoView>, k: int)
    requires
        0 <= k < cgtos.len(),
    ensures
        subshell_count(cgtos.take(k + 1)) == subshell_count(cgtos.take(k)) + cgtos[k].angl.len(),
{
    assert(cgtos.take(k + 1).drop_last() =~= cgtos.take(k));
}

/// The slots of the first `k + 1` groups of functions.
pub proof fn lemma_cgtos_len_next(cgtos: Seq<CgtoView>, k: int)
    requires
        0 <= k < cgtos.len(),
    ensures
        cgtos_len(cgtos.take(k + 1)) == cgtos_len(cgtos.take(k)) + cgtos[k].env_len(),
{
    assert(cgtos.take(k + 1).drop_last() =~= cgtos.take(k));
}

/// The slots of the first `k` groups of functions are among the slots of all.
pub proof fn lemma_cgtos_len_monotone(cgtos: Seq<CgtoView>, k: int)
    requires
        0 <= k <= cgtos.len(),
    ensures
        cgtos_len(cgtos.take(k)) <= cgtos_len(cgtos),
    decreases cgtos.len() - k,
{
    if k == cgtos.len() {
        assert(cgtos.take(k) =~= cgtos);
    } else {
        lemma_cgtos_len_next(cgtos, k);
        lemma_cgtos_len_monotone(cgtos, k + 1);
    }
}

/// The basis slots of the first `g + 1` groups.
pub proof fn lemma_basis_len_next(groups: Seq<AtomGroupView>, g: int)
    requires
        0 <= g < groups.len(),
    ensures
        basis_len(groups.take(g + 1)) == basis_len(groups.take(g)) + cgtos_len(basis_of(groups[g])),
{
    assert(groups.take(g + 1).drop_last() =~= groups.take(g));
}

/// The basis slots of the first `g` groups are among the basis slots of all.
pub proof fn lemma_basis_len_monotone(groups: Seq<AtomGroupView>, g: int)
    requires
        0 <= g <= groups.len(),
    ensures
        basis_len(groups.take(g)) <= basis_len(groups),
    decreases groups.len() - g,
{
    if g == groups.len() {
        assert(groups.take(g) =~= groups);
    } else {
        lemma_basis_len_next(groups, g);
        lemma_basis_len_monotone(groups, g + 1);
    }
}

// ---------------------------------------------------------------------
// Where the blocks start
// ---------------------------------------------------------------------

/// The atoms of a group take four slots each.
pub proof fn lemma_group_atoms_len(group: AtomGroupView, j: int)
    requires
        0 <= j <= group.coordinates.len(),
    ensures
        block_start(group_atom_blocks(group), j) == ATM_SLOT * j,
        group_atom_blocks(group).flatten().len() == ATM_SLOT * group.coordinates.len(),
{
    let blocks = group_atom_blocks(group);
    lemma_flatten_uniform(blocks, 4);
    lemma_flatten_uniform(blocks.take(j), 4);
}

/// The atom slots of group `g` start four slots per atom of the groups
/// before it into the atom region.
pub proof fn lemma_atom_blocks_start(groups: Seq<AtomGroupView>, g: int)
    requires
        0 <= g <= groups.len(),
    ensures
        block_start(atom_blocks(groups), g) == ATM_SLOT * atom_count(groups.take(g)),
    decreases g,
{
    if g == 0 {
        lemma_flatten_take_none(atom_blocks(groups));
        assert(groups.take(0) =~= Seq::<AtomGroupView>::empty());
    } else {
        lemma_atom_blocks_start(groups, g - 1);
        lemma_flatten_take_next(atom_blocks(groups), g - 1);
        lemma_atom_count_next(groups, g - 1);
        lemma_group_atoms_len(groups[g - 1], 0);
    }
}

/// A well-formed group of functions takes as many slots as counted.
pub proof fn lemma_cgto_env_len(cgto: CgtoView)
    requires
        cgto.wf(),
    ensures
        cgto_env(cgto).len() == cgto.env_len(),
{
    lemma_flatten_uniform(cgto.coeff, cgto.exp.len());
    assert(cgto.exp.len() + cgto.angl.len() * cgto.exp.len() == cgto.exp.len() * (cgto.angl.len()
        + 1)) by (nonlinear_arith);
}

/// The slots of group of functions `k` start after the slots counted for
/// those before it.
pub proof fn lemma_cgto_blocks_start(cgtos: Seq<CgtoView>, k: int)
    requires
        basis_wf(cgtos),
        0 <= k <= cgtos.len(),
    ensures
        block_start(cgto_blocks(cgtos), k) == cgtos_len(cgtos.take(k)),
    decreases k,
{
    if k == 0 {
        lemma_flatten_take_none(cgto_blocks(cgtos));
        assert(cgtos.take(0) =~= Seq::<CgtoView>::empty());
    } else {
        lemma_cgto_blocks_start(cgtos, k - 1);
        lemma_flatten_take_next(cgto_blocks(cgtos), k - 1);
        lemma_cgtos_len_next(cgtos, k - 1);
        lemma_cgto_env_len(cgtos[k - 1]);
    }
}

/// A well-formed basis takes as many slots as counted.
pub proof fn lemma_cgto_blocks_len(cgtos: Seq<CgtoView>)
    requires
        basis_wf(cgtos),
    ensures
        cgto_blocks(cgtos).flatten().len() == cgtos_len(cgtos),
{
    lemma_cgto_blocks_start(cgtos, cgtos.len() as int);
    assert(cgtos.take(cgtos.len() as int) =~= cgtos);
    assert(cgto_blocks(cgtos).take(cgtos.len() as int) =~= cgto_blocks(cgtos));
}

/// The basis slots of group `g` start after the slots counted for the
/// bases before it.
pub proof fn lemma_basis_blocks_start(groups: Seq<AtomGroupView>, g: int)
    requires
        cgtos_wf(groups),
        0 <= g <= groups.len(),
    ensures
        block_start(basis_blocks(groups), g) == basis_len(groups.take(g)),
    decreases g,
{
    if g == 0 {
        lemma_flatten_take_none(basis_blocks(groups));
        assert(groups.take(0) =~= Seq::<AtomGroupView>::empty());
    } else {
        lemma_basis_blocks_start(groups, g - 1);
        lemma_flatten_take_next(basis_blocks(groups), g - 1);
        lemma_basis_len_next(groups, g - 1);
        lemma_cgto_blocks_len(basis_of(groups[g - 1]));
    }
}

/// The length of the environment buffer is the header size, plus four
/// slots for each atom, plus for each group of functions its exponents and
/// as many coefficients for each of its sub-shells.
pub proof fn lemma_env_len(groups: Seq<AtomGroupView>)
    requires
        cgtos_wf(groups),
    ensures
        atoms_env(groups).len() == ATM_SLOT * atom_count(groups),
        basis_env(groups).len() == basis_len(groups),
        packed_env(groups).len() == env_len(groups),
        env_len(groups) == PTR_ENV_START + ATM_SLOT * atom_count(groups) + basis_len(groups),
{
    let n = groups.len() as int;
    lemma_atom_blocks_start(groups, n);
    lemma_basis_blocks_start(groups, n);
    assert(groups.take(n) =~= groups);
    assert(atom_blocks(groups).take(n) =~= atom_blocks(groups));
    assert(basis_blocks(groups).take(n) =~= basis_blocks(groups));
}

/// The entries of the atom-to-basis mapping for group `g` start after one
/// entry per atom of the groups before it.
pub proof fn lemma_atmbas_blocks_start(groups: Seq<AtomGroupView>, g: int)
    requires
        0 <= g <= groups.len(),
    ensures
        block_start(atmbas_blocks(groups), g) == atom_count(groups.take(g)),
    decreases g,
{
    if g == 0 {
        lemma_flatten_take_none(atmbas_blocks(groups));
        assert(groups.take(0) =~= Seq::<AtomGroupView>::empty());
    } else {
        lemma_atmbas_blocks_start(groups, g - 1);
        lemma_flatten_take_next(atmbas_blocks(groups), g - 1);
        lemma_atom_count_next(groups, g - 1);
    }
}

/// The atom-to-basis mapping has one entry per atom.
pub proof fn lemma_atmbas_len(groups: Seq<AtomGroupView>)
    ensures
        atmbas_index(groups).len() == atom_count(groups),
{
    let n = groups.len() as int;
    lemma_atmbas_blocks_start(groups, n);
    assert(groups.take(n) =~= groups);
    assert(atmbas_blocks(groups).take(n) =~= atmbas_blocks(groups));
}

/// Atom `j` of group `g` has sequence number
/// `atom_count(groups.take(g)) + j`, and the mapping sends it to `g`.
pub proof fn lemma_atmbas_entry(groups: Seq<AtomGroupView>, g: int, j: int)
    requires
        groups.len() <= usize::MAX,
        0 <= g < groups.len(),
        0 <= j < groups[g].coordinates.len(),
    ensures
        atom_count(groups.take(g)) + j < atom_count(groups),
        atmbas_index(groups).len() == atom_count(groups),
        atmbas_index(groups)[atom_count(groups.take(g)) + j] == g,
{
    lemma_atmbas_len(groups);
    lemma_atmbas_blocks_start(groups, g);
    lemma_block_index(atmbas_blocks(groups), g, j);
}

/// Every entry of the atom-to-basis mapping is the index of a group.
pub proof fn lemma_atmbas_range(groups: Seq<AtomGroupView>, a: int)
    requires
        groups.len() <= usize::MAX,
        0 <= a < atom_count(groups),
    ensures
        atmbas_index(groups).len() == atom_count(groups),
        0 <= atmbas_index(groups)[a] < groups.len(),
    decreases groups.len(),
{
    lemma_atmbas_len(groups);
    let n = groups.len() as int;
    if n > 0 {
        let front = groups.drop_last();
        assert(groups.take(n - 1) =~= front);
        lemma_atmbas_blocks_start(groups, n - 1);
        if a < atom_count(front) {
            let shrunk = atmbas_blocks(groups).take(n - 1);
            assert(shrunk =~= atmbas_blocks(front));
            lemma_flatten_take_next(atmbas_blocks(groups), n - 1);
            assert(atmbas_blocks(groups).take(n) =~= atmbas_blocks(groups));
            lemma_atmbas_range(front, a);
            assert(atmbas_index(groups)[a] == atmbas_index(front)[a]);
        } else {
            lemma_atmbas_entry(groups, n - 1, a - atom_count(front));
        }
    }
}

/// The records of group of functions `k` start after one record per
/// sub-shell of those before it.
pub proof fn lemma_record_blocks_start(cgtos: Seq<CgtoView>, start: int, k: int)
    requires
        0 <= k <= cgtos.len(),
    ensures
        block_start(record_blocks(cgtos, start), k) == subshell_count(cgtos.take(k)),
    decreases k,
{
    if k == 0 {
        lemma_flatten_take_none(record_blocks(cgtos, start));
        assert(cgtos.take(0) =~= Seq::<CgtoView>::empty());
    } else {
        lemma_record_blocks_start(cgtos, start, k - 1);
        lemma_flatten_take_next(record_blocks(cgtos, start), k - 1);
        lemma_subshell_count_next(cgtos, k - 1);
    }
}

/// A template has one record per sub-shell of its basis.
pub proof fn lemma_basis_records_len(cgtos: Seq<CgtoView>, start: int)
    ensures
        basis_records(cgtos, start).len() == subshell_count(cgtos),
{
    let n = cgtos.len() as int;
    lemma_record_blocks_start(cgtos, start, n);
    assert(cgtos.take(n) =~= cgtos);
    assert(record_blocks(cgtos, start).take(n) =~= record_blocks(cgtos, start));
}

// ---------------------------------------------------------------------
// The offsets point at the values
// ---------------------------------------------------------------------

/// Slot `q` of group of functions `k` of group `g` lies `q` slots after
/// the place counted for it.
pub proof fn lemma_env_at_cgto(groups: Seq<AtomGroupView>, g: int, k: int, q: int)
    requires
        cgtos_wf(groups),
        0 <= g < groups.len(),
        0 <= k < basis_of(groups[g]).len(),
        0 <= q < basis_of(groups[g])[k].env_len(),
    ensures
        ({
            let basis = basis_of(groups[g]);
            let at = group_start(groups, g) + cgtos_len(basis.take(k)) + q;
            &&& PTR_ENV_START <= at < env_len(groups)
            &&& packed_env(groups)[at] == cgto_env(basis[k])[q]
        }),
{
    let basis = basis_of(groups[g]);
    let inner = cgtos_len(basis.take(k)) + q;
    lemma_env_len(groups);
    lemma_cgto_env_len(basis[k]);
    lemma_cgto_blocks_start(basis, k);
    lemma_cgto_blocks_len(basis);
    lemma_block_index(cgto_blocks(basis), k, q);
    lemma_basis_blocks_start(groups, g);
    lemma_block_index(basis_blocks(groups), g, inner);
}

/// In a well-formed group of functions the exponents come first and
/// coefficient `p` of sub-shell `i` lies `p` slots into row `i` after them.
pub proof fn lemma_cgto_env_index(cgto: CgtoView, i: int, p: int)
    requires
        cgto.wf(),
        0 <= i < cgto.angl.len(),
        0 <= p < cgto.exp.len(),
    ensures
        p < cgto.env_len(),
        cgto.exp.len() * (i + 1) + p < cgto.env_len(),
        cgto_env(cgto)[p] == cgto.exp[p],
        cgto_env(cgto)[cgto.exp.len() * (i + 1) + p] == cgto.coeff[i][p],
{
    let n = cgto.exp.len();
    lemma_flatten_uniform(cgto.coeff.take(i), n);
    lemma_block_index(cgto.coeff, i, p);
    lemma_cgto_env_len(cgto);
    assert(n * (i + 1) + p == n + (i * n + p) && n * (i + 1) + p < n * (cgto.angl.len() + 1))
        by (nonlinear_arith)
        requires
            0 <= i < cgto.angl.len(),
            0 <= p < n,
    ;
}

/// Slot `k` of atom `j` of group `g` lies four slots per earlier atom, and
/// `k` more, into the atom region.
pub proof fn lemma_atom_slot(groups: Seq<AtomGroupView>, g: int, j: int, k: int)
    requires
        0 <= g < groups.len(),
        0 <= j < groups[g].coordinates.len(),
        0 <= k < 4,
    ensures
        ({
            let at = ATM_SLOT * (atom_count(groups.take(g)) + j) + k;
            &&& at < atoms_env(groups).len()
            &&& atoms_env(groups)[at] == atom_slots(groups[g].coordinates[j], groups[g].zeta)[k]
        }),
{
    let inner = group_atom_blocks(groups[g]);
    lemma_atom_blocks_start(groups, g);
    lemma_group_atoms_len(groups[g], j);
    lemma_block_index(inner, j, k);
    assert(inner.flatten()[ATM_SLOT * j + k] == inner[j][k]);
    lemma_block_index(atom_blocks(groups), g, ATM_SLOT * j + k);
    assert(atom_blocks(groups)[g] == inner.flatten());
}

/// Every atom record points at the slots that hold the atom's data.
///
/// Atom `j` of group `g` has the record at its sequence number; the three
/// slots from the record's `coord` on hold its coordinates, and the slot
/// `zeta` holds the width of its group.
pub proof fn lemma_atom_round_trip(groups: Seq<AtomGroupView>, g: int, j: int)
    requires
        groups.len() <= usize::MAX,
        coords_wf(groups),
        cgtos_wf(groups),
        env_len(groups) <= i32::MAX,
        0 <= g < groups.len(),
        0 <= j < groups[g].coordinates.len(),
    ensures
        ({
            let a = atom_count(groups.take(g)) + j;
            let rec = atom_records(groups)[a];
            let env = packed_env(groups);
            &&& 0 <= a < atom_records(groups).len()
            &&& rec == atom_record(groups[g], a)
            &&& PTR_ENV_START <= rec.coord
            &&& rec.zeta == rec.coord + 3
            &&& rec.zeta < env.len()
            &&& env[rec.coord as int] == groups[g].coordinates[j][0]
            &&& env[rec.coord + 1] == groups[g].coordinates[j][1]
            &&& env[rec.coord + 2] == groups[g].coordinates[j][2]
            &&& env[rec.zeta as int] == groups[g].zeta
        }),
{
    let a = atom_count(groups.take(g)) + j;
    lemma_atmbas_entry(groups, g, j);
    lemma_env_len(groups);
    lemma_atom_blocks_start(groups, g);
    lemma_group_atoms_len(groups[g], j);
    lemma_atom_slot(groups, g, j, 0);
    lemma_atom_slot(groups, g, j, 1);
    lemma_atom_slot(groups, g, j, 2);
    lemma_atom_slot(groups, g, j, 3);
}

/// Every basis record points at the slots that hold its exponents and its
/// coefficients.
///
/// Sub-shell `i` of group of functions `k` of group `g` has the record at
/// position `subshell_count(basis.take(k)) + i` of the group's template;
/// the slots from `ptr_exp` on hold the exponents and the slots from
/// `ptr_coeff` on hold the coefficients of the sub-shell.
pub proof fn lemma_basis_round_trip(groups: Seq<AtomGroupView>, g: int, k: int, i: int, p: int)
    requires
        cgtos_wf(groups),
        env_len(groups) <= i32::MAX,
        0 <= g < groups.len(),
        0 <= k < basis_of(groups[g]).len(),
        0 <= i < basis_of(groups[g])[k].angl.len(),
        0 <= p < basis_of(groups[g])[k].exp.len(),
    ensures
        ({
            let basis = basis_of(groups[g]);
            let r = subshell_count(basis.take(k)) + i;
            let rec = templates(groups)[g][r];
            let env = packed_env(groups);
            &&& 0 <= r < templates(groups)[g].len()
            &&& rec.nprim_of == basis[k].exp.len()
            &&& PTR_ENV_START <= rec.ptr_exp
            &&& rec.ptr_exp + rec.nprim_of <= rec.ptr_coeff
            &&& rec.ptr_coeff + rec.nprim_of <= env.len()
            &&& env[rec.ptr_exp + p] == basis[k].exp[p]
            &&& env[rec.ptr_coeff + p] == basis[k].coeff[i][p]
        }),
{
    let basis = basis_of(groups[g]);
    let cgto = basis[k];
    let n = cgto.exp.len();
    lemma_template_record(groups, g, k, i);
    lemma_env_len(groups);
    lemma_cgto_env_index(cgto, i, p);
    lemma_env_at_cgto(groups, g, k, p);
    lemma_env_at_cgto(groups, g, k, n * (i + 1) + p);
}

/// The slots counted for group of functions `k` of group `g` end within
/// the environment buffer.
pub proof fn lemma_cgto_within(groups: Seq<AtomGroupView>, g: int, k: int)
    requires
        0 <= g < groups.len(),
        0 <= k < basis_of(groups[g]).len(),
    ensures
        PTR_ENV_START <= group_start(groups, g) + cgtos_len(basis_of(groups[g]).take(k)),
        group_start(groups, g) + cgtos_len(basis_of(groups[g]).take(k)) + basis_of(
            groups[g],
        )[k].env_len() <= env_len(groups),
{
    let basis = basis_of(groups[g]);
    lemma_cgtos_len_next(basis, k);
    lemma_cgtos_len_monotone(basis, k + 1);
    lemma_basis_len_next(groups, g);
    lemma_basis_len_monotone(groups, g + 1);
}

/// The record of sub-shell `i` of group of functions `k` of group `g`
/// stands at position `subshell_count(basis.take(k)) + i` of the group's
/// template and is the template record of the sub-shell, with the
/// exponents at the place counted for the group of functions and the
/// coefficients one row per earlier sub-shell after them.
pub proof fn lemma_template_record(groups: Seq<AtomGroupView>, g: int, k: int, i: int)
    requires
        env_len(groups) <= i32::MAX,
        0 <= g < groups.len(),
        0 <= k < basis_of(groups[g]).len(),
        0 <= i < basis_of(groups[g])[k].angl.len(),
    ensures
        ({
            let basis = basis_of(groups[g]);
            let r = subshell_count(basis.take(k)) + i;
            let rec = templates(groups)[g][r];
            let start = group_start(groups, g) + cgtos_len(basis.take(k));
            &&& 0 <= r < templates(groups)[g].len()
            &&& rec == template_record(
                basis[k],
                i,
                start,
                start + basis[k].exp.len() * (i + 1),
            )
            &&& rec.atom_of == -1
            &&& rec.ang_of == basis[k].angl[i]
            &&& rec.nprim_of == basis[k].exp.len()
            &&& rec.nctr_of == 1
            &&& rec.kappa_of == basis[k].kappa_of
            &&& rec.ptr_exp == start
            &&& rec.ptr_coeff == start + basis[k].exp.len() * (i + 1)
            &&& PTR_ENV_START <= rec.ptr_exp
            &&& rec.ptr_exp + rec.nprim_of <= rec.ptr_coeff
            &&& rec.ptr_coeff + rec.nprim_of <= env_len(groups)
        }),
{
    let basis = basis_of(groups[g]);
    let n = basis[k].exp.len();
    let shells = basis[k].angl.len();
    lemma_record_blocks_start(basis, group_start(groups, g), k);
    lemma_block_index(record_blocks(basis, group_start(groups, g)), k, i);
    lemma_cgto_within(groups, g, k);
    assert(n <= n * (i + 1) && n * (i + 1) + n <= n * (shells + 1)) by (nonlinear_arith)
        requires
            0 <= i < shells,
            0 <= n,
    ;
}

/// Every record of a template is the record of a sub-shell of one of the
/// groups of functions of the basis.
pub proof fn lemma_record_located(cgtos: Seq<CgtoView>, r: int) -> (at: (int, int))
    requires
        0 <= r < subshell_count(cgtos),
    ensures
        0 <= at.0 < cgtos.len(),
        0 <= at.1 < cgtos[at.0].angl.len(),
        r == subshell_count(cgtos.take(at.0)) + at.1,
    decreases cgtos.len(),
{
    let front = cgtos.drop_last();
    let last = cgtos.len() - 1;
    assert(cgtos.take(last) =~= front);
    if r < subshell_count(front) {
        let at = lemma_record_located(front, r);
        assert(front.take(at.0) =~= cgtos.take(at.0));
        at
    } else {
        (last, r - subshell_count(front))
    }
}

/// Every atom is an atom of one of the groups.
pub proof fn lemma_atom_located(groups: Seq<AtomGroupView>, a: int) -> (at: (int, int))
    requires
        0 <= a < atom_count(groups),
    ensures
        0 <= at.0 < groups.len(),
        0 <= at.1 < groups[at.0].coordinates.len(),
        a == atom_count(groups.take(at.0)) + at.1,
    decreases groups.len(),
{
    let front = groups.drop_last();
    let last = groups.len() - 1;
    assert(groups.take(last) =~= front);
    if a < atom_count(front) {
        let at = lemma_atom_located(front, a);
        assert(front.take(at.0) =~= groups.take(at.0));
        at
    } else {
        (last, a - atom_count(front))
    }
}

// ---------------------------------------------------------------------
// Selecting basis records by atom
// ---------------------------------------------------------------------

/// The records of a template bound to the atom index `atom`.
pub open spec fn realized(template: Seq<CintBasis>, atom: int) -> Seq<CintBasis> {
    Seq::new(template.len(), |r: int| template[r].bound_to(atom))
}

/// For each listed atom the records of its template, bound to the atom's
/// position in the list.
pub open spec fn selected_blocks(
    templates: Seq<Seq<CintBasis>>,
    atmbas: Seq<AtomIndex>,
    iatm: Seq<AtomIndex>,
) -> Seq<Seq<CintBasis>> {
    Seq::new(
        iatm.len(),
        |pos: int| realized(templates[atmbas[iatm[pos] as int] as int], pos),
    )
}

/// The basis records of the listed atoms, in the order of the list, each
/// bound to its atom's position in the list.
pub open spec fn select_atoms(
    templates: Seq<Seq<CintBasis>>,
    atmbas: Seq<AtomIndex>,
    iatm: Seq<AtomIndex>,
) -> Seq<CintBasis> {
    selected_blocks(templates, atmbas, iatm).flatten()
}

/// The list of the first `n` atoms.
pub open spec fn all_atoms(n: nat) -> Seq<AtomIndex> {
    Seq::new(n, |a: int| a as AtomIndex)
}

/// The basis records of every atom, each bound to its atom.
pub open spec fn select_all(templates: Seq<Seq<CintBasis>>, atmbas: Seq<AtomIndex>) -> Seq<
    CintBasis,
> {
    select_atoms(templates, atmbas, all_atoms(atmbas.len()))
}

/// For one atom the records of each named template, bound to the atom.
pub open spec fn paired_blocks(
    templates: Seq<Seq<CintBasis>>,
    atom: AtomIndex,
    which: Seq<BasisIndex>,
) -> Seq<Seq<CintBasis>> {
    Seq::new(which.len(), |b: int| realized(templates[which[b] as int], atom as int))
}

/// For each atom of `keys` the records of the templates that the map
/// names for it, bound to the atom.
pub open spec fn mapped_blocks(
    templates: Seq<Seq<CintBasis>>,
    keys: Seq<AtomIndex>,
    which_bas: Map<AtomIndex, Vec<BasisIndex>>,
) -> Seq<Seq<CintBasis>> {
    Seq::new(
        keys.len(),
        |i: int| paired_blocks(templates, keys[i], which_bas[keys[i]]@).flatten(),
    )
}

/// The basis records of the pairs of atom and template that the map names,
/// walked in the order of `keys`.
pub open spec fn select_map(
    templates: Seq<Seq<CintBasis>>,
    keys: Seq<AtomIndex>,
    which_bas: Map<AtomIndex, Vec<BasisIndex>>,
) -> Seq<CintBasis> {
    mapped_blocks(templates, keys, which_bas).flatten()
}

/// Every template index that the map names exists.
pub open spec fn names_templates(which_bas: Map<AtomIndex, Vec<BasisIndex>>, count: nat) -> bool {
    forall|k: AtomIndex, b: int|
        which_bas.contains_key(k) && 0 <= b < which_bas[k]@.len() ==> #[trigger] which_bas[k]@[b]
            < count
}

/// The sub-shells of the bases of the first `n` atoms, atom by atom.
pub open spec fn shells_of_atoms(groups: Seq<AtomGroupView>, n: nat) -> nat
    decreases n,
{
    if n == 0 {
        0
    } else {
        shells_of_atoms(groups, (n - 1) as nat) + subshell_count(
            basis_of(groups[atmbas_index(groups)[n - 1] as int]),
        )
    }
}

/// The records selected for the atoms before atom `n` are as many as the
/// sub-shells of the bases of those atoms.
pub proof fn lemma_select_all_start(groups: Seq<AtomGroupView>, n: nat)
    requires
        groups.len() <= usize::MAX,
        atom_count(groups) <= usize::MAX,
        n <= atom_count(groups),
    ensures
        block_start(
            selected_blocks(
                templates(groups),
                atmbas_index(groups),
                all_atoms(atmbas_index(groups).len()),
            ),
            n as int,
        ) == shells_of_atoms(groups, n),
    decreases n,
{
    let atmbas = atmbas_index(groups);
    let blocks = selected_blocks(templates(groups), atmbas, all_atoms(atmbas.len()));
    lemma_atmbas_len(groups);
    if n == 0 {
        lemma_flatten_take_none(blocks);
    } else {
        let a = n - 1;
        lemma_select_all_start(groups, a as nat);
        lemma_flatten_take_next(blocks, a);
        lemma_atmbas_range(groups, a);
        let g = atmbas[a] as int;
        lemma_basis_records_len(basis_of(groups[g]), group_start(groups, g));
        assert(blocks[a].len() == templates(groups)[g].len());
    }
}

/// Selecting every atom of a freshly assembled dataset gives as many
/// records as the atoms' bases have sub-shells, summed over the atoms.
pub proof fn lemma_select_all_count(groups: Seq<AtomGroupView>)
    requires
        groups.len() <= usize::MAX,
        atom_count(groups) <= usize::MAX,
    ensures
        select_all(templates(groups), atmbas_index(groups)).len() == shells_of_atoms(
            groups,
            atom_count(groups),
        ),
{
    let atmbas = atmbas_index(groups);
    let blocks = selected_blocks(templates(groups), atmbas, all_atoms(atmbas.len()));
    lemma_atmbas_len(groups);
    lemma_select_all_start(groups, atom_count(groups));
    assert(blocks.take(atom_count(groups) as int) =~= blocks);
}

} // verus!
