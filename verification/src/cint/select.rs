//! Ordered maps as the selector and the geometry reader use them: the
//! walk over a map from atoms to basis templates in ascending order of
//! the atoms, and the look-up of the basis of an element.
use std::collections::BTreeMap;
use vstd::laws_cmp::group_laws_cmp;
use vstd::prelude::*;
use vstd::std_specs::btree::{
    axiom_contains_deref_key, axiom_increasing_seq_meaning, axiom_key_obeys_cmp_spec_meaning,
    axiom_maps_deref_key_to_value, increasing_seq, key_obeys_cmp_spec,
};
use vstd::std_specs::cmp::OrdSpec;
use vstd::std_specs::iter::IteratorSpec;
use super::rawdata::CGTO;
use super::{AtomIndex, BasisIndex};

verus! {

/// The keys of a map in ascending order, each once.
pub open spec fn ascending_keys<V>(keys: Seq<AtomIndex>, m: Map<AtomIndex, V>) -> bool {
    &&& forall|i: int, j: int| 0 <= i < j < keys.len() ==> keys[i] < keys[j]
    &&& forall|i: int| 0 <= i < keys.len() ==> m.contains_key(#[trigger] keys[i])
    &&& forall|k: AtomIndex| m.contains_key(k) ==> keys.contains(k)
}

/// Two ascending lists of the keys of a map agree on their first `i`
/// entries.
proof fn lemma_ascending_keys_agree<V>(
    a: Seq<AtomIndex>,
    b: Seq<AtomIndex>,
    m: Map<AtomIndex, V>,
    i: int,
)
    requires
        ascending_keys(a, m),
        ascending_keys(b, m),
        0 <= i <= a.len(),
        i <= b.len(),
    ensures
        forall|j: int| 0 <= j < i ==> a[j] == b[j],
    decreases i,
{
    if i > 0 {
        let last = i - 1;
        lemma_ascending_keys_agree(a, b, m, last);
        if a[last] < b[last] {
            assert(m.contains_key(a[last]));
            assert(b.contains(a[last]));
            let j = choose|j: int| 0 <= j < b.len() && b[j] == a[last];
            if j < last {
                assert(a[j] < a[last]);
            } else if j > last {
                assert(b[last] < b[j]);
            }
        } else if b[last] < a[last] {
            assert(m.contains_key(b[last]));
            assert(a.contains(b[last]));
            let j = choose|j: int| 0 <= j < a.len() && a[j] == b[last];
            if j < last {
                assert(b[j] < b[last]);
            } else if j > last {
                assert(a[last] < a[j]);
            }
        }
    }
}

/// A list of the keys of a map that runs over another, which agrees with
/// it as far as that one goes, is no longer.
proof fn lemma_ascending_keys_end<V>(a: Seq<AtomIndex>, b: Seq<AtomIndex>, m: Map<AtomIndex, V>)
    requires
        ascending_keys(a, m),
        ascending_keys(b, m),
        a.len() <= b.len(),
    ensures
        a.len() == b.len(),
{
    lemma_ascending_keys_agree(a, b, m, a.len() as int);
    if a.len() < b.len() {
        let extra = b[a.len() as int];
        assert(m.contains_key(extra));
        assert(a.contains(extra));
        let j = choose|j: int| 0 <= j < a.len() && a[j] == extra;
        assert(b[j] < b[a.len() as int]);
    }
}

/// A map has one ascending list of its keys: the order in which a
/// selection by map walks the atoms is fixed by the map.
pub proof fn lemma_ascending_keys_unique<V>(
    a: Seq<AtomIndex>,
    b: Seq<AtomIndex>,
    m: Map<AtomIndex, V>,
)
    requires
        ascending_keys(a, m),
        ascending_keys(b, m),
    ensures
        a == b,
{
    if a.len() <= b.len() {
        lemma_ascending_keys_end(a, b, m);
    } else {
        lemma_ascending_keys_end(b, a, m);
    }
    lemma_ascending_keys_agree(a, b, m, a.len() as int);
    assert(a =~= b);
}

/// A sequence that the standard library calls increasing has each entry
/// below the next.
proof fn lemma_increasing(s: Seq<AtomIndex>)
    requires
        increasing_seq(s),
    ensures
        forall|i: int, j: int| 0 <= i < j < s.len() ==> s[i] < s[j],
{
    broadcast use group_laws_cmp;
    broadcast use axiom_increasing_seq_meaning;

    assert(vstd::laws_cmp::obeys_cmp::<AtomIndex>());
    assert forall|i: int, j: int| 0 <= i < j < s.len() implies s[i] < s[j] by {
        assert(s[i].cmp_spec(&s[j]) is Less);
    }
}

/// The entries of the map in ascending order of their keys.
pub fn entries<'a>(m: &'a BTreeMap<AtomIndex, Vec<BasisIndex>>) -> (r: Vec<
    (AtomIndex, &'a Vec<BasisIndex>),
>)
    ensures
        ascending_keys(Seq::new(r@.len(), |i: int| r@[i].0), m@),
        forall|i: int| 0 <= i < r@.len() ==> m@[(#[trigger] r@[i]).0] == *r@[i].1,
{
    let mut out: Vec<(AtomIndex, &'a Vec<BasisIndex>)> = Vec::new();
    let iter = m.iter();
    let ghost items = iter.remaining();
    let ghost keys = items.map_values(|kv: (&AtomIndex, &Vec<BasisIndex>)| *kv.0);
    proof {
        broadcast use group_laws_cmp;
        broadcast use axiom_key_obeys_cmp_spec_meaning;

        assert(key_obeys_cmp_spec::<AtomIndex>());
        lemma_increasing(keys);
        assert forall|k: AtomIndex| m@.contains_key(k) implies keys.contains(k) by {
            assert(items.contains((&k, &m@[k])));
            let i = choose|i: int| 0 <= i < items.len() && items[i] == (&k, &m@[k]);
            assert(keys[i] == k);
        }
    }
    for kv in it: iter
        invariant
            out@.len() == it.index(),
            it.seq() == items,
            keys == items.map_values(|kv: (&AtomIndex, &Vec<BasisIndex>)| *kv.0),
            forall|i: int| 0 <= i < out@.len() ==> (#[trigger] out@[i]).0 == keys[i],
            forall|i: int| 0 <= i < out@.len() ==> *(#[trigger] out@[i]).1 == *items[i].1,
    {
        let (k, v) = kv;
        out.push((*k, v));
    }
    proof {
        let listed = Seq::new(out@.len(), |i: int| out@[i].0);
        assert(listed =~= keys);
        assert forall|i: int| 0 <= i < keys.len() implies m@.contains_key(#[trigger] keys[i])
            && m@[keys[i]] == *items[i].1 by {
            assert(m@.contains_key(*items[i].0));
        }
    }
    out
}

/// The basis that the map holds for an element, if it holds one.
pub fn basis_for<'a>(basis: &'a BTreeMap<u8, Vec<CGTO>>, nuc: u8) -> (r: Option<&'a Vec<CGTO>>)
    ensures
        match r {
            Some(cgtos) => basis@.contains_key(nuc) && basis@[nuc] == *cgtos,
            None => !basis@.contains_key(nuc),
        },
{
    broadcast use group_laws_cmp;
    broadcast use axiom_contains_deref_key;
    broadcast use axiom_maps_deref_key_to_value;

    assert(vstd::laws_cmp::obeys_cmp::<u8>());
    basis.get(&nuc)
}

} // verus!
