//! The integral invoker and the dense tensor that an evaluation returns.
use vstd::prelude::*;
use super::Binary64;
use super::cdata::{CintAtom, CintBasis, CintEnv};
use super::layout::{ATM_SLOTS, BAS_SLOTS};
use super::packing::{
    lemma_block_index, lemma_flatten_take_next, lemma_flatten_take_none,
    lemma_flatten_uniform,
};
use crate::error::CintError;

verus! {

// ---------------------------------------------------------------------
// Tensor addressing
// ---------------------------------------------------------------------

/// Number of elements of a dense tensor with the given extents: their
/// product.
pub open spec fn tensor_len(dims: Seq<i32>) -> int
    decreases dims.len(),
{
    if dims.len() == 0 {
        1
    } else {
        tensor_len(dims.drop_last()) * dims.last()
    }
}

/// Row-major position of a multi-index: the last axis varies fastest.
pub open spec fn row_major(dims: Seq<i32>, index: Seq<usize>) -> int
    decreases index.len(),
{
    if index.len() == 0 {
        0
    } else {
        row_major(dims.drop_last(), index.drop_last()) * dims.last() + index.last()
    }
}

/// The multi-index has one component per axis, each below its extent.
pub open spec fn in_range(dims: Seq<i32>, index: Seq<usize>) -> bool {
    &&& index.len() == dims.len()
    &&& forall|k: int| 0 <= k < index.len() ==> #[trigger] index[k] < dims[k]
}

/// No extent is negative.
pub open spec fn non_negative(dims: Seq<i32>) -> bool {
    forall|k: int| 0 <= k < dims.len() ==> #[trigger] dims[k] >= 0
}

/// A multi-index in range addresses an element of the tensor.
pub proof fn lemma_row_major_bound(dims: Seq<i32>, index: Seq<usize>)
    requires
        in_range(dims, index),
    ensures
        0 <= row_major(dims, index) < tensor_len(dims),
    decreases index.len(),
{
    if index.len() > 0 {
        let front = row_major(dims.drop_last(), index.drop_last());
        let rest = tensor_len(dims.drop_last());
        lemma_row_major_bound(dims.drop_last(), index.drop_last());
        assert(0 <= front * dims.last() + index.last() < rest * dims.last()) by (nonlinear_arith)
            requires
                0 <= front < rest,
                0 <= index.last() < dims.last(),
        ;
    }
}

/// The position of a prefix of a multi-index in range, among the axes of
/// the prefix, is at most the position of the whole.
pub proof fn lemma_row_major_prefix(dims: Seq<i32>, index: Seq<usize>, k: int)
    requires
        in_range(dims, index),
        0 <= k <= index.len(),
    ensures
        0 <= row_major(dims.take(k), index.take(k)) <= row_major(dims, index),
    decreases index.len() - k,
{
    if k == index.len() {
        assert(dims.take(k) =~= dims);
        assert(index.take(k) =~= index);
        lemma_row_major_bound(dims, index);
    } else {
        lemma_row_major_prefix(dims, index, k + 1);
        assert(dims.take(k + 1).drop_last() =~= dims.take(k));
        assert(index.take(k + 1).drop_last() =~= index.take(k));
        assert(in_range(dims.take(k), index.take(k)));
        lemma_row_major_bound(dims.take(k), index.take(k));
        let front = row_major(dims.take(k), index.take(k));
        assert(front <= front * dims[k] + index[k]) by (nonlinear_arith)
            requires
                0 <= front,
                0 <= index[k] < dims[k],
        ;
    }
}

/// Two multi-indices in range with the same position are the same.
pub proof fn lemma_row_major_injective(dims: Seq<i32>, a: Seq<usize>, b: Seq<usize>)
    requires
        in_range(dims, a),
        in_range(dims, b),
        row_major(dims, a) == row_major(dims, b),
    ensures
        a == b,
    decreases dims.len(),
{
    if dims.len() > 0 {
        let fa = row_major(dims.drop_last(), a.drop_last());
        let fb = row_major(dims.drop_last(), b.drop_last());
        lemma_row_major_bound(dims.drop_last(), a.drop_last());
        lemma_row_major_bound(dims.drop_last(), b.drop_last());
        assert(fa == fb && a.last() == b.last()) by (nonlinear_arith)
            requires
                fa * dims.last() + a.last() == fb * dims.last() + b.last(),
                0 <= a.last() < dims.last(),
                0 <= b.last() < dims.last(),
        ;
        lemma_row_major_injective(dims.drop_last(), a.drop_last(), b.drop_last());
        assert(a =~= a.drop_last().push(a.last()));
        assert(b =~= b.drop_last().push(b.last()));
    } else {
        assert(a =~= b);
    }
}

/// With no negative extent, the tensor of a prefix of the axes is no
/// longer than the tensor of all, unless the latter is empty.
pub proof fn lemma_tensor_len_prefix(dims: Seq<i32>, k: int)
    requires
        non_negative(dims),
        0 <= k <= dims.len(),
    ensures
        0 <= tensor_len(dims.take(k)),
        tensor_len(dims) == 0 || tensor_len(dims.take(k)) <= tensor_len(dims),
    decreases dims.len() - k,
{
    if k == dims.len() {
        assert(dims.take(k) =~= dims);
        lemma_tensor_len_non_negative(dims);
    } else {
        lemma_tensor_len_prefix(dims, k + 1);
        assert(dims.take(k + 1).drop_last() =~= dims.take(k));
        lemma_tensor_len_non_negative(dims.take(k));
        let front = tensor_len(dims.take(k));
        assert(front * dims[k] == 0 || front <= front * dims[k]) by (nonlinear_arith)
            requires
                0 <= front,
                0 <= dims[k],
        ;
        if tensor_len(dims) != 0 && tensor_len(dims.take(k + 1)) == 0 {
            lemma_tensor_len_zero(dims, k + 1);
        }
    }
}

/// With no negative extent the tensor has no negative length.
pub proof fn lemma_tensor_len_non_negative(dims: Seq<i32>)
    requires
        non_negative(dims),
    ensures
        0 <= tensor_len(dims),
    decreases dims.len(),
{
    if dims.len() > 0 {
        lemma_tensor_len_non_negative(dims.drop_last());
        assert(0 <= tensor_len(dims.drop_last()) * dims.last()) by (nonlinear_arith)
            requires
                0 <= tensor_len(dims.drop_last()),
                0 <= dims.last(),
        ;
    }
}

/// With every extent positive the tensor is not empty.
pub proof fn lemma_tensor_len_positive(dims: Seq<i32>)
    requires
        forall|k: int| 0 <= k < dims.len() ==> #[trigger] dims[k] >= 1,
    ensures
        1 <= tensor_len(dims),
    decreases dims.len(),
{
    if dims.len() > 0 {
        lemma_tensor_len_positive(dims.drop_last());
        assert(1 <= tensor_len(dims.drop_last()) * dims.last()) by (nonlinear_arith)
            requires
                1 <= tensor_len(dims.drop_last()),
                1 <= dims.last(),
        ;
    }
}

/// Once a prefix of the axes gives an empty tensor, all axes do.
pub proof fn lemma_tensor_len_zero(dims: Seq<i32>, k: int)
    requires
        0 <= k <= dims.len(),
        tensor_len(dims.take(k)) == 0,
    ensures
        tensor_len(dims) == 0,
    decreases dims.len() - k,
{
    if k == dims.len() {
        assert(dims.take(k) =~= dims);
    } else {
        assert(dims.take(k + 1).drop_last() =~= dims.take(k));
        assert(tensor_len(dims.take(k)) * dims[k] == 0) by (nonlinear_arith)
            requires
                tensor_len(dims.take(k)) == 0,
        ;
        lemma_tensor_len_zero(dims, k + 1);
    }
}

/// The number of elements of a dense tensor with the given extents, where
/// no extent is negative and the number fits the machine.
#[verifier::rlimit(50)]
pub fn checked_len(dims: &Vec<i32>) -> (r: Option<usize>)
    ensures
        match r {
            Some(n) => non_negative(dims@) && n == tensor_len(dims@),
            None => !non_negative(dims@) || tensor_len(dims@) > usize::MAX,
        },
{
    let mut k: usize = 0;
    let mut zero = false;
    while k < dims.len()
        invariant
            k <= dims.len(),
            forall|j: int| 0 <= j < k ==> #[trigger] dims@[j] >= 0,
            zero <==> exists|j: int| 0 <= j < k && dims@[j] == 0,
        decreases dims.len() - k,
    {
        if dims[k] < 0 {
            return None;
        }
        if dims[k] == 0 {
            zero = true;
        }
        k += 1;
    }
    if zero {
        proof {
            let j = choose|j: int| 0 <= j < dims@.len() && dims@[j] == 0;
            assert(dims@.take(j + 1).drop_last() =~= dims@.take(j));
            assert(tensor_len(dims@.take(j)) * dims@[j] == 0) by (nonlinear_arith)
                requires
                    dims@[j] == 0,
            ;
            lemma_tensor_len_zero(dims@, j + 1);
        }
        return Some(0);
    }
    let mut n: usize = 1;
    let mut k: usize = 0;
    proof {
        assert(dims@.take(0) =~= Seq::<i32>::empty());
    }
    while k < dims.len()
        invariant
            k <= dims.len(),
            forall|j: int| 0 <= j < dims@.len() ==> #[trigger] dims@[j] >= 1,
            n == tensor_len(dims@.take(k as int)),
            n >= 1,
        decreases dims.len() - k,
    {
        let d = dims[k] as usize;
        proof {
            assert(dims@.take(k + 1).drop_last() =~= dims@.take(k as int));
            lemma_tensor_len_prefix(dims@, k + 1);
            lemma_tensor_len_positive(dims@);
            assert(n * d >= 1) by (nonlinear_arith)
                requires
                    n >= 1,
                    d >= 1,
            ;
        }
        let room = usize::MAX / d;
        if n > room {
            proof {
                assert(n * d > usize::MAX) by (nonlinear_arith)
                    requires
                        d >= 1,
                        n > room,
                        room == (usize::MAX as int) / (d as int),
                ;
            }
            return None;
        }
        proof {
            assert(n * d <= usize::MAX) by (nonlinear_arith)
                requires
                    d >= 1,
                    n >= 0,
                    n <= room,
                    room == (usize::MAX as int) / (d as int),
            ;
        }
        n = n * d;
        k += 1;
    }
    proof {
        assert(dims@.take(k as int) =~= dims@);
    }
    Some(n)
}

// ---------------------------------------------------------------------
// The result of an evaluation
// ---------------------------------------------------------------------

/// A dense tensor over `N` shells, stored row-major.
#[derive(Debug, Clone)]
pub struct IntorResult<const N: usize> {
    dims: Vec<i32>,
    out: Vec<Binary64>,
}

impl<const N: usize> IntorResult<N> {
    /// The extent of each axis.
    pub closed spec fn spec_dims(&self) -> Seq<i32> {
        self.dims@
    }

    /// The elements, row-major.
    pub closed spec fn spec_out(&self) -> Seq<Binary64> {
        self.out@
    }

    /// A tensor with the given extents over the given elements.
    pub fn new(dims: Vec<i32>, out: Vec<Binary64>) -> (r: Self)
        ensures
            r.spec_dims() == dims@,
            r.spec_out() == out@,
    {
        IntorResult { dims, out }
    }

    /// The extent of each axis.
    pub fn dims(&self) -> (r: &Vec<i32>)
        ensures
            r@ == self.spec_dims(),
    {
        &self.dims
    }

    /// The elements, row-major.
    pub fn out(&self) -> (r: &Vec<Binary64>)
        ensures
            r@ == self.spec_out(),
    {
        &self.out
    }

    /// The row-major position of the element at a multi-index.
    pub fn offset(&self, index: &Vec<usize>) -> (r: usize)
        requires
            index@.len() == N,
            in_range(self.spec_dims(), index@),
            row_major(self.spec_dims(), index@) <= usize::MAX,
        ensures
            r == row_major(self.spec_dims(), index@),
    {
        let mut at: usize = 0;
        let mut k: usize = 0;
        proof {
            assert(index@.take(0) =~= Seq::<usize>::empty());
        }
        while k < index.len()
            invariant
                in_range(self.dims@, index@),
                row_major(self.dims@, index@) <= usize::MAX,
                k <= index.len(),
                at == row_major(self.dims@.take(k as int), index@.take(k as int)),
            decreases index.len() - k,
        {
            proof {
                lemma_row_major_prefix(self.dims@, index@, k + 1);
                assert(self.dims@.take(k + 1).drop_last() =~= self.dims@.take(k as int));
                assert(index@.take(k + 1).drop_last() =~= index@.take(k as int));
                lemma_row_major_prefix(self.dims@, index@, k as int);
                assert(at * self.dims@[k as int] >= 0) by (nonlinear_arith)
                    requires
                        at >= 0,
                        self.dims@[k as int] >= 0,
                ;
            }
            at = at * (self.dims[k] as usize) + index[k];
            k += 1;
        }
        proof {
            assert(self.dims@.take(k as int) =~= self.dims@);
            assert(index@.take(k as int) =~= index@);
        }
        at
    }

    /// The multi-index has `N` components, each below its extent, and
    /// addresses an element that the tensor holds.
    pub open spec fn holds(&self, index: Seq<usize>) -> bool {
        &&& index.len() == N
        &&& in_range(self.spec_dims(), index)
        &&& row_major(self.spec_dims(), index) < self.spec_out().len()
    }

    /// The element at a multi-index, if the tensor holds one there.
    pub fn get(&self, index: &Vec<usize>) -> (r: Option<&Binary64>)
        ensures
            match r {
                Some(element) => self.holds(index@) && *element == self.spec_out()[row_major(
                    self.spec_dims(),
                    index@,
                )],
                None => !self.holds(index@),
            },
    {
        if index.len() != N || index.len() != self.dims.len() {
            return None;
        }
        let mut k: usize = 0;
        while k < index.len()
            invariant
                index@.len() == self.dims@.len(),
                k <= index.len(),
                forall|j: int| 0 <= j < k ==> #[trigger] index@[j] < self.dims@[j],
            decreases index.len() - k,
        {
            if self.dims[k] < 0 || index[k] >= self.dims[k] as usize {
                assert(!(index@[k as int] < self.dims@[k as int]));
                return None;
            }
            k += 1;
        }
        let len = self.out.len();
        let mut at: usize = 0;
        let mut k: usize = 0;
        proof {
            assert(index@.take(0) =~= Seq::<usize>::empty());
        }
        while k < index.len()
            invariant
                in_range(self.dims@, index@),
                len == self.out@.len(),
                k <= index.len(),
                at == row_major(self.dims@.take(k as int), index@.take(k as int)),
            decreases index.len() - k,
        {
            let d = self.dims[k] as usize;
            let ghost next = row_major(self.dims@.take(k + 1), index@.take(k + 1));
            proof {
                lemma_row_major_prefix(self.dims@, index@, k + 1);
                assert(self.dims@.take(k + 1).drop_last() =~= self.dims@.take(k as int));
                assert(index@.take(k + 1).drop_last() =~= index@.take(k as int));
                assert(next == at * d + index@[k as int]);
            }
            if at > (usize::MAX - index[k]) / d {
                proof {
                    assert(at * d + index@[k as int] > usize::MAX) by (nonlinear_arith)
                        requires
                            d >= 1,
                            0 <= index@[k as int] <= usize::MAX,
                            at > (usize::MAX - index@[k as int]) / (d as int),
                    ;
                }
                return None;
            }
            proof {
                assert(at * d + index@[k as int] <= usize::MAX && at * d >= 0) by (nonlinear_arith)
                    requires
                        d >= 1,
                        at >= 0,
                        0 <= index@[k as int] <= usize::MAX,
                        at <= (usize::MAX - index@[k as int]) / (d as int),
                ;
            }
            at = at * d + index[k];
            k += 1;
        }
        proof {
            assert(self.dims@.take(k as int) =~= self.dims@);
            assert(index@.take(k as int) =~= index@);
        }
        if at < len {
            Some(&self.out[at])
        } else {
            None
        }
    }

    /// The element at a multi-index.
    pub fn index(&self, index: Vec<usize>) -> (r: &Binary64)
        requires
            index@.len() == N,
            in_range(self.spec_dims(), index@),
            row_major(self.spec_dims(), index@) < self.spec_out().len(),
        ensures
            *r == self.spec_out()[row_major(self.spec_dims(), index@)],
    {
        let len = self.out.len();
        let at = self.offset(&index);
        &self.out[at]
    }
}

// ---------------------------------------------------------------------
// Records as flat integer arrays
// ---------------------------------------------------------------------

/// The slots of each atom record.
pub open spec fn atom_slot_blocks(atm: Seq<CintAtom>) -> Seq<Seq<i32>> {
    Seq::new(atm.len(), |a: int| atm[a].slots())
}

/// The atom records as one run of integers, six per record.
pub open spec fn flat_atoms(atm: Seq<CintAtom>) -> Seq<i32> {
    atom_slot_blocks(atm).flatten()
}

/// The slots of each basis record.
pub open spec fn basis_slot_blocks(bas: Seq<CintBasis>) -> Seq<Seq<i32>> {
    Seq::new(bas.len(), |b: int| bas[b].slots())
}

/// The basis records as one run of integers, eight per record.
pub open spec fn flat_basis(bas: Seq<CintBasis>) -> Seq<i32> {
    basis_slot_blocks(bas).flatten()
}

/// Slot `slot` of atom record `a` is integer `6 * a + slot` of the flat
/// array.
pub proof fn lemma_flat_atoms_index(atm: Seq<CintAtom>, a: int, slot: int)
    requires
        0 <= a < atm.len(),
        0 <= slot < ATM_SLOTS,
    ensures
        flat_atoms(atm).len() == ATM_SLOTS * atm.len(),
        flat_atoms(atm)[ATM_SLOTS * a + slot] == atm[a].slots()[slot],
{
    let blocks = atom_slot_blocks(atm);
    lemma_flatten_uniform(blocks, ATM_SLOTS as nat);
    lemma_flatten_uniform(blocks.take(a), ATM_SLOTS as nat);
    lemma_block_index(blocks, a, slot);
}

/// Slot `slot` of basis record `b` is integer `8 * b + slot` of the flat
/// array.
pub proof fn lemma_flat_basis_index(bas: Seq<CintBasis>, b: int, slot: int)
    requires
        0 <= b < bas.len(),
        0 <= slot < BAS_SLOTS,
    ensures
        flat_basis(bas).len() == BAS_SLOTS * bas.len(),
        flat_basis(bas)[BAS_SLOTS * b + slot] == bas[b].slots()[slot],
{
    let blocks = basis_slot_blocks(bas);
    lemma_flatten_uniform(blocks, BAS_SLOTS as nat);
    lemma_flatten_uniform(blocks.take(b), BAS_SLOTS as nat);
    lemma_block_index(blocks, b, slot);
}

/// The atom records as one run of integers in the foreign layout.
pub fn flatten_atoms(atm: &Vec<CintAtom>) -> (r: Vec<i32>)
    ensures
        r@ == flat_atoms(atm@),
{
    let ghost blocks = atom_slot_blocks(atm@);
    let mut out: Vec<i32> = Vec::new();
    let mut a: usize = 0;
    proof {
        lemma_flatten_take_none(blocks);
    }
    while a < atm.len()
        invariant
            blocks == atom_slot_blocks(atm@),
            a <= atm.len(),
            out@ == blocks.take(a as int).flatten(),
        decreases atm.len() - a,
    {
        let rec = &atm[a];
        let ghost before = out@;
        out.push(rec.charge_of);
        out.push(rec.coord);
        out.push(rec.nuc_mod_of);
        out.push(rec.zeta);
        out.push(rec.frac_charge);
        out.push(rec.reserve_atmslot);
        proof {
            assert(out@ =~= before + blocks[a as int]);
            lemma_flatten_take_next(blocks, a as int);
        }
        a += 1;
    }
    proof {
        assert(blocks.take(a as int) =~= blocks);
    }
    out
}

/// The basis records as one run of integers in the foreign layout.
pub fn flatten_basis(bas: &Vec<CintBasis>) -> (r: Vec<i32>)
    ensures
        r@ == flat_basis(bas@),
{
    let ghost blocks = basis_slot_blocks(bas@);
    let mut out: Vec<i32> = Vec::new();
    let mut b: usize = 0;
    proof {
        lemma_flatten_take_none(blocks);
    }
    while b < bas.len()
        invariant
            blocks == basis_slot_blocks(bas@),
            b <= bas.len(),
            out@ == blocks.take(b as int).flatten(),
        decreases bas.len() - b,
    {
        let rec = &bas[b];
        let ghost before = out@;
        out.push(rec.atom_of);
        out.push(rec.ang_of);
        out.push(rec.nprim_of);
        out.push(rec.nctr_of);
        out.push(rec.kappa_of);
        out.push(rec.ptr_exp);
        out.push(rec.ptr_coeff);
        out.push(rec.reserve_baslot);
        proof {
            assert(out@ =~= before + blocks[b as int]);
            lemma_flatten_take_next(blocks, b as int);
        }
        b += 1;
    }
    proof {
        assert(blocks.take(b as int) =~= blocks);
    }
    out
}

// ---------------------------------------------------------------------
// The invoker
// ---------------------------------------------------------------------

/// The extents that the shape query gives for each basis record.
fn query_dims<F: Fn(i32, &Vec<i32>) -> i32>(bas_slots: &Vec<i32>, nbas: usize, query: &F) -> (r:
    Vec<i32>)
    requires
        nbas <= i32::MAX,
        forall|i: i32, slots: &Vec<i32>| query.requires((i, slots)),
    ensures
        r@.len() == nbas,
        forall|i: int| 0 <= i < nbas ==> query.ensures((i as i32, bas_slots), #[trigger] r@[i]),
{
    let mut out: Vec<i32> = Vec::new();
    let mut i: usize = 0;
    while i < nbas
        invariant
            nbas <= i32::MAX,
            forall|i: i32, slots: &Vec<i32>| query.requires((i, slots)),
            i <= nbas,
            out@.len() == i,
            forall|j: int| 0 <= j < i ==> query.ensures((j as i32, bas_slots), #[trigger] out@[j]),
        decreases nbas - i,
    {
        out.push(query(i as i32, bas_slots));
        i += 1;
    }
    out
}

/// Atom records, basis records and environment buffer, together with the
/// extents of each basis record in the three counting conventions.
#[derive(Debug, Clone)]
pub struct Intor<'a> {
    dims_cart: Vec<i32>,
    dims_spheric: Vec<i32>,
    dims_spinor: Vec<i32>,
    natm: i32,
    atm: &'a Vec<CintAtom>,
    atm_slots: Vec<i32>,
    nbas: i32,
    bas: Vec<CintBasis>,
    bas_slots: Vec<i32>,
    env: &'a CintEnv,
}

/// The extents of the shells `shls` in a table of extents per basis record.
pub open spec fn shell_dims(table: Seq<i32>, shls: Seq<i32>) -> Seq<i32> {
    Seq::new(shls.len(), |k: int| table[shls[k] as int])
}

/// Every listed shell is a basis record of the table.
pub open spec fn shells_in_range(table: Seq<i32>, shls: Seq<i32>) -> bool {
    forall|k: int| 0 <= k < shls.len() ==> 0 <= #[trigger] shls[k] < table.len()
}

/// A buffer of `n` zeros.
pub open spec fn zeros(n: int) -> Seq<Binary64> {
    Seq::new(n as nat, |i: int| 0u64)
}

impl<'a> Intor<'a> {
    /// Cartesian extent of each basis record.
    pub closed spec fn spec_dims_cart(&self) -> Seq<i32> {
        self.dims_cart@
    }

    /// Spherical extent of each basis record.
    pub closed spec fn spec_dims_spheric(&self) -> Seq<i32> {
        self.dims_spheric@
    }

    /// Spinor extent of each basis record.
    pub closed spec fn spec_dims_spinor(&self) -> Seq<i32> {
        self.dims_spinor@
    }

    /// The atom records.
    pub closed spec fn spec_atm(&self) -> Seq<CintAtom> {
        self.atm@
    }

    /// The basis records.
    pub closed spec fn spec_bas(&self) -> Seq<CintBasis> {
        self.bas@
    }

    /// The environment buffer.
    pub closed spec fn spec_env(&self) -> Seq<Binary64> {
        self.env@
    }

    /// The atom records as the flat array handed to the foreign side.
    pub closed spec fn spec_atm_slots(&self) -> Vec<i32> {
        self.atm_slots
    }

    /// The basis records as the flat array handed to the foreign side.
    pub closed spec fn spec_bas_slots(&self) -> Vec<i32> {
        self.bas_slots
    }

    /// The atom count handed to the foreign side.
    pub closed spec fn spec_natm(&self) -> i32 {
        self.natm
    }

    /// The basis count handed to the foreign side.
    pub closed spec fn spec_nbas(&self) -> i32 {
        self.nbas
    }

    /// The counts are those of the records, the flat arrays hold the
    /// records slot by slot, and each table of extents has one entry per
    /// basis record.
    pub open spec fn wf(&self) -> bool {
        &&& self.spec_natm() == self.spec_atm().len()
        &&& self.spec_nbas() == self.spec_bas().len()
        &&& self.spec_atm_slots()@ == flat_atoms(self.spec_atm())
        &&& self.spec_bas_slots()@ == flat_basis(self.spec_bas())
        &&& self.spec_dims_cart().len() == self.spec_bas().len()
        &&& self.spec_dims_spheric().len() == self.spec_bas().len()
        &&& self.spec_dims_spinor().len() == self.spec_bas().len()
    }

    /// The invoker is well formed, holds the given records and buffer, and
    /// each of its extents is an answer of the shape query of its
    /// convention for the record's index and the flat array of the basis
    /// records.
    pub open spec fn built_from<F1, F2, F3>(
        &self,
        atm: Seq<CintAtom>,
        bas: Seq<CintBasis>,
        env: Seq<Binary64>,
        cart: &F1,
        spheric: &F2,
        spinor: &F3,
    ) -> bool where
        F1: Fn(i32, &Vec<i32>) -> i32,
        F2: Fn(i32, &Vec<i32>) -> i32,
        F3: Fn(i32, &Vec<i32>) -> i32,
     {
        &&& self.wf()
        &&& self.spec_atm() == atm
        &&& self.spec_bas() == bas
        &&& self.spec_env() == env
        &&& forall|i: int|
            0 <= i < bas.len() ==> cart.ensures(
                (i as i32, &self.spec_bas_slots()),
                #[trigger] self.spec_dims_cart()[i],
            )
        &&& forall|i: int|
            0 <= i < bas.len() ==> spheric.ensures(
                (i as i32, &self.spec_bas_slots()),
                #[trigger] self.spec_dims_spheric()[i],
            )
        &&& forall|i: int|
            0 <= i < bas.len() ==> spinor.ensures(
                (i as i32, &self.spec_bas_slots()),
                #[trigger] self.spec_dims_spinor()[i],
            )
    }

    /// An invoker over the given records and buffer.
    ///
    /// The three shape queries are asked once for each basis record, with
    /// the record's index and the flat array of all basis records, and
    /// their answers are kept as the record's cartesian, spherical and
    /// spinor extents.
    pub fn new<F1, F2, F3>(
        atm: &'a Vec<CintAtom>,
        bas: Vec<CintBasis>,
        env: &'a CintEnv,
        cart: &F1,
        spheric: &F2,
        spinor: &F3,
    ) -> (r: Self) where
        F1: Fn(i32, &Vec<i32>) -> i32,
        F2: Fn(i32, &Vec<i32>) -> i32,
        F3: Fn(i32, &Vec<i32>) -> i32,

        requires
            atm@.len() <= i32::MAX,
            bas@.len() <= i32::MAX,
            forall|i: i32, slots: &Vec<i32>| cart.requires((i, slots)),
            forall|i: i32, slots: &Vec<i32>| spheric.requires((i, slots)),
            forall|i: i32, slots: &Vec<i32>| spinor.requires((i, slots)),
        ensures
            r.built_from(atm@, bas@, env@, cart, spheric, spinor),
    {
        let atm_slots = flatten_atoms(atm);
        let bas_slots = flatten_basis(&bas);
        let dims_cart = query_dims(&bas_slots, bas.len(), cart);
        let dims_spheric = query_dims(&bas_slots, bas.len(), spheric);
        let dims_spinor = query_dims(&bas_slots, bas.len(), spinor);
        Self {
            dims_cart,
            dims_spheric,
            dims_spinor,
            natm: atm.len() as i32,
            atm,
            atm_slots,
            nbas: bas.len() as i32,
            bas,
            bas_slots,
            env,
        }
    }

    /// The number of atom records.
    pub fn natm(&self) -> (r: i32)
        ensures
            r == self.spec_natm(),
    {
        self.natm
    }

    /// The number of basis records.
    pub fn nbas(&self) -> (r: i32)
        ensures
            r == self.spec_nbas(),
    {
        self.nbas
    }

    /// Cartesian extent of each basis record.
    pub fn dims_cart(&self) -> (r: &Vec<i32>)
        ensures
            r@ == self.spec_dims_cart(),
    {
        &self.dims_cart
    }

    /// Spherical extent of each basis record.
    pub fn dims_spheric(&self) -> (r: &Vec<i32>)
        ensures
            r@ == self.spec_dims_spheric(),
    {
        &self.dims_spheric
    }

    /// Spinor extent of each basis record.
    pub fn dims_spinor(&self) -> (r: &Vec<i32>)
        ensures
            r@ == self.spec_dims_spinor(),
    {
        &self.dims_spinor
    }

    /// The atom records.
    pub fn atm(&self) -> (r: &Vec<CintAtom>)
        ensures
            r@ == self.spec_atm(),
    {
        self.atm
    }

    /// The basis records.
    pub fn bas(&self) -> (r: &Vec<CintBasis>)
        ensures
            r@ == self.spec_bas(),
    {
        &self.bas
    }

    /// The environment buffer.
    pub fn env(&self) -> (r: &CintEnv)
        ensures
            r@ == self.spec_env(),
    {
        self.env
    }

    /// The atom records as one run of integers, six per record.
    pub fn atm_slots(&self) -> (r: &Vec<i32>)
        ensures
            *r == self.spec_atm_slots(),
    {
        &self.atm_slots
    }

    /// The basis records as one run of integers, eight per record.
    pub fn bas_slots(&self) -> (r: &Vec<i32>)
        ensures
            *r == self.spec_bas_slots(),
    {
        &self.bas_slots
    }

    /// The extents of the tensor over the given shells in the cartesian
    /// convention: for each shell the cartesian extent of its basis record.
    pub fn cart_dims<const N: usize>(&self, shls: &[i32; N]) -> (r: Vec<i32>)
        requires
            shells_in_range(self.spec_dims_cart(), shls@),
        ensures
            r@ == shell_dims(self.spec_dims_cart(), shls@),
    {
        let mut dims: Vec<i32> = Vec::new();
        let mut k: usize = 0;
        while k < N
            invariant
                shells_in_range(self.dims_cart@, shls@),
                k <= N,
                dims@.len() == k,
                forall|j: int| 0 <= j < k ==> #[trigger] dims@[j] == self.dims_cart@[shls@[j] as int],
            decreases N - k,
        {
            let l = shls[k];
            assert(0 <= shls@[k as int] < self.dims_cart@.len());
            dims.push(self.dims_cart[l as usize]);
            k += 1;
        }
        proof {
            assert(dims@ =~= shell_dims(self.dims_cart@, shls@));
        }
        dims
    }

    /// What an evaluation over the shells `shls` with `kernel` may return:
    /// a tensor with the shells' cartesian extents whose elements are what
    /// the kernel made of a zeroed buffer of as many elements as the
    /// extents multiply to, given the extents, the shells, the atom records
    /// as a flat array and their number, the basis records as a flat array
    /// and their number, and the environment buffer.
    pub open spec fn evaluated<const N: usize, K>(
        &self,
        shls: [i32; N],
        kernel: K,
        result: IntorResult<N>,
    ) -> bool where
        K: FnOnce(
            Vec<Binary64>,
            &Vec<i32>,
            &[i32; N],
            &Vec<i32>,
            i32,
            &Vec<i32>,
            i32,
            &[Binary64],
        ) -> Vec<Binary64>,
     {
        &&& result.spec_dims() == shell_dims(self.spec_dims_cart(), shls@)
        &&& exists|buffer: Vec<Binary64>, dims: Vec<i32>, env: &[Binary64], out: Vec<Binary64>|
            {
                &&& buffer@ == zeros(tensor_len(result.spec_dims()))
                &&& dims@ == result.spec_dims()
                &&& env@ == self.spec_env()
                &&& out@ == result.spec_out()
                &&& kernel.ensures(
                    (
                        buffer,
                        &dims,
                        &shls,
                        &self.spec_atm_slots(),
                        self.spec_natm(),
                        &self.spec_bas_slots(),
                        self.spec_nbas(),
                        env,
                    ),
                    out,
                )
            }
    }

    /// Evaluates an integral over the shells `shls` in the cartesian
    /// convention.
    ///
    /// The kernel receives a zeroed output buffer with one element for each
    /// combination of the shells' components, the extents, the shells, the
    /// atom records as a flat array and their number, the basis records as
    /// a flat array and their number, and the environment buffer; it
    /// returns the output buffer filled.  Fails with `NullKernel` if no
    /// kernel is given.
    pub fn int_cart<const N: usize, K>(&self, shls: [i32; N], int_func: Option<K>) -> (r: Result<
        IntorResult<N>,
        CintError,
    >) where
        K: FnOnce(
            Vec<Binary64>,
            &Vec<i32>,
            &[i32; N],
            &Vec<i32>,
            i32,
            &Vec<i32>,
            i32,
            &[Binary64],
        ) -> Vec<Binary64>,

        requires
            int_func is Some ==> {
                &&& shells_in_range(self.spec_dims_cart(), shls@)
                &&& non_negative(shell_dims(self.spec_dims_cart(), shls@))
                &&& tensor_len(shell_dims(self.spec_dims_cart(), shls@)) <= usize::MAX
                &&& forall|
                    buffer: Vec<Binary64>,
                    dims: &Vec<i32>,
                    s: &[i32; N],
                    atm: &Vec<i32>,
                    natm: i32,
                    bas: &Vec<i32>,
                    nbas: i32,
                    env: &[Binary64],
                |
                    int_func->0.requires((buffer, dims, s, atm, natm, bas, nbas, env))
            },
        ensures
            match r {
                Ok(result) => int_func is Some && self.evaluated(shls, int_func->0, result),
                Err(e) => int_func is None && e == CintError::NullKernel,
            },
    {
        match int_func {
            None => Err(CintError::NullKernel),
            Some(func) => {
                let dims = self.cart_dims(&shls);
                let len = checked_len(&dims).unwrap();
                let mut buffer: Vec<Binary64> = Vec::new();
                let mut i: usize = 0;
                while i < len
                    invariant
                        i <= len,
                        buffer@ == zeros(i as int),
                    decreases len - i,
                {
                    buffer.push(0);
                    proof {
                        assert(buffer@ =~= zeros(i + 1));
                    }
                    i += 1;
                }
                let ghost handed = buffer;
                let env = self.env.as_slice();
                let out = func(
                    buffer,
                    &dims,
                    &shls,
                    &self.atm_slots,
                    self.natm,
                    &self.bas_slots,
                    self.nbas,
                    env,
                );
                let result = IntorResult { dims, out };
                proof {
                    assert(func.ensures(
                        (
                            handed,
                            &result.dims,
                            &shls,
                            &self.atm_slots,
                            self.natm,
                            &self.bas_slots,
                            self.nbas,
                            env,
                        ),
                        result.out,
                    ));
                }
                Ok(result)
            },
        }
    }
}

} // verus!
