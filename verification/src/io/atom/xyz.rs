//! The plain-text geometry format.
use std::collections::BTreeMap;
use vstd::prelude::*;
use vstd::string::StringSliceAdditionalSpecFns;
use crate::cint::rawdata::{
    cgtos_view, clone_cgtos, coords_view, group_views, AtomGroupView, CgtoView, CintAtomGroup,
    CGTO,
};
use crate::cint::select::basis_for;
use crate::cint::Binary64;
use crate::error::CintError;
use crate::io::{ELEMENTS, PERIODIC_TABLE};

verus! {

/// The atomic number of the element with the given symbol: one more than
/// the first position in the periodic table that holds the symbol.
#[verifier::opaque]
pub open spec fn atomic_number(symbol: Seq<u8>) -> Option<u8> {
    if exists|i: int| 0 <= i < ELEMENTS && #[trigger] PERIODIC_TABLE[i].spec_bytes() == symbol {
        let first = choose|i: int|
            0 <= i < ELEMENTS && #[trigger] PERIODIC_TABLE[i].spec_bytes() == symbol && forall|j: int|
                0 <= j < i ==> #[trigger] PERIODIC_TABLE[j].spec_bytes() != symbol;
        Some((first + 1) as u8)
    } else {
        None
    }
}

/// Whether two runs of bytes are equal.
pub fn same_bytes(a: &[u8], b: &[u8]) -> (r: bool)
    ensures
        r == (a@ == b@),
{
    if a.len() != b.len() {
        return false;
    }
    let mut i: usize = 0;
    while i < a.len()
        invariant
            a@.len() == b@.len(),
            i <= a.len(),
            a@.take(i as int) == b@.take(i as int),
        decreases a.len() - i,
    {
        if a[i] != b[i] {
            return false;
        }
        proof {
            assert(a@.take(i + 1) =~= a@.take(i as int).push(a@[i as int]));
            assert(b@.take(i + 1) =~= b@.take(i as int).push(b@[i as int]));
        }
        i += 1;
    }
    proof {
        assert(a@.take(i as int) =~= a@);
        assert(b@.take(i as int) =~= b@);
    }
    true
}

/// Looks the symbol up in the periodic table.
pub fn find_element(symbol: &[u8]) -> (r: Option<u8>)
    ensures
        r == atomic_number(symbol@),
{
    let mut i: usize = 0;
    while i < ELEMENTS
        invariant
            i <= ELEMENTS,
            forall|j: int| 0 <= j < i ==> #[trigger] PERIODIC_TABLE[j].spec_bytes() != symbol@,
        decreases ELEMENTS - i,
    {
        if same_bytes(PERIODIC_TABLE[i].as_bytes(), symbol) {
            proof {
                reveal(atomic_number);
                let first = choose|k: int|
                    0 <= k < ELEMENTS && #[trigger] PERIODIC_TABLE[k].spec_bytes() == symbol@
                        && forall|j: int|
                        0 <= j < k ==> #[trigger] PERIODIC_TABLE[j].spec_bytes() != symbol@;
                assert(PERIODIC_TABLE[i as int].spec_bytes() == symbol@);
                assert(first == i);
            }
            return Some((i + 1) as u8);
        }
        i += 1;
    }
    proof {
        reveal(atomic_number);
    }
    None
}

// ---------------------------------------------------------------------
// The grammar
// ---------------------------------------------------------------------

/// White space: the blank, and the control characters from tab to
/// carriage return.
pub open spec fn is_space(b: u8) -> bool {
    b == 0x20 || (0x09 <= b && b <= 0x0d)
}

/// A decimal digit.
pub open spec fn is_digit(b: u8) -> bool {
    0x30 <= b && b <= 0x39
}

/// The text without the white space at its end.
pub open spec fn trim_end(s: Seq<u8>) -> Seq<u8>
    decreases s.len(),
{
    if s.len() > 0 && is_space(s.last()) {
        trim_end(s.drop_last())
    } else {
        s
    }
}

/// The runs of bytes between the line feeds of a text; one run more than
/// there are line feeds.
pub open spec fn segments(s: Seq<u8>) -> Seq<Seq<u8>>
    decreases s.len(),
{
    if s.len() == 0 {
        seq![Seq::empty()]
    } else {
        let front = segments(s.drop_last());
        if s.last() == 0x0a {
            front.push(Seq::empty())
        } else {
            front.drop_last().push(front.last().push(s.last()))
        }
    }
}

/// The lines of a text: none if the text is blank, else the segments of
/// the text without the white space at its end.
pub open spec fn lines(text: Seq<u8>) -> Seq<Seq<u8>> {
    let trimmed = trim_end(text);
    if trimmed.len() == 0 {
        Seq::empty()
    } else {
        segments(trimmed)
    }
}

/// The fields of a line: its maximal runs of bytes that are not white
/// space, in order.
pub open spec fn fields(s: Seq<u8>) -> Seq<Seq<u8>>
    decreases s.len(),
{
    if s.len() == 0 {
        Seq::empty()
    } else {
        let front = fields(s.drop_last());
        if is_space(s.last()) {
            front
        } else if s.len() >= 2 && !is_space(s[s.len() - 2]) {
            front.drop_last().push(front.last().push(s.last()))
        } else {
            front.push(seq![s.last()])
        }
    }
}

/// The line without a carriage return at its end.
pub open spec fn strip_cr(s: Seq<u8>) -> Seq<u8> {
    if s.len() > 0 && s.last() == 0x0d {
        s.drop_last()
    } else {
        s
    }
}

/// The number that a run of decimal digits writes.
pub open spec fn decimal(digits: Seq<u8>) -> nat
    decreases digits.len(),
{
    if digits.len() == 0 {
        0
    } else {
        decimal(digits.drop_last()) * 10 + (digits.last() - 0x30) as nat
    }
}

/// Every byte is a decimal digit.
pub open spec fn all_digits(s: Seq<u8>) -> bool {
    forall|i: int| 0 <= i < s.len() ==> is_digit(#[trigger] s[i])
}

/// The run without a plus sign at its start.
pub open spec fn unsigned(s: Seq<u8>) -> Seq<u8> {
    if s.len() > 0 && s[0] == 0x2b {
        s.skip(1)
    } else {
        s
    }
}

/// The atom count that a line declares: decimal digits after an optional
/// plus sign, with nothing around them, if the number fits the machine.
pub open spec fn parse_count(s: Seq<u8>) -> Option<usize> {
    let digits = unsigned(s);
    if digits.len() > 0 && all_digits(digits) && decimal(digits) <= usize::MAX {
        Some(decimal(digits) as usize)
    } else {
        None
    }
}

/// One atom of a geometry: its element and the fields after the symbol,
/// not yet read as numbers.
#[derive(Debug)]
pub struct XyzAtom {
    /// Atomic number.
    pub nuc: u8,
    /// The coordinate fields, at most three.
    pub fields: Vec<Vec<u8>>,
}

/// The content of an [`XyzAtom`].
pub struct XyzAtomView {
    pub nuc: u8,
    pub fields: Seq<Seq<u8>>,
}

/// The runs of bytes of a list.
pub open spec fn byte_rows(rows: Seq<Vec<u8>>) -> Seq<Seq<u8>> {
    Seq::new(rows.len(), |i: int| rows[i]@)
}

impl View for XyzAtom {
    type V = XyzAtomView;

    open spec fn view(&self) -> XyzAtomView {
        XyzAtomView { nuc: self.nuc, fields: byte_rows(self.fields@) }
    }
}

/// The content of each atom of a list.
pub open spec fn atoms_view(atoms: Seq<XyzAtom>) -> Seq<XyzAtomView> {
    Seq::new(atoms.len(), |i: int| atoms[i]@)
}

/// What an atom line holds: the element that its first field names and up
/// to three fields after it.  A line without fields or with an unknown
/// symbol gives `UnknownElementSymbol`; one with more than three fields
/// after the symbol gives `NumericParse`.
#[verifier::opaque]
pub open spec fn read_line(line: Seq<u8>) -> Result<XyzAtomView, CintError> {
    let f = fields(line);
    if f.len() == 0 {
        Err(CintError::UnknownElementSymbol)
    } else {
        match atomic_number(f[0]) {
            None => Err(CintError::UnknownElementSymbol),
            Some(nuc) => if f.len() > 4 {
                Err(CintError::NumericParse)
            } else {
                Ok(XyzAtomView { nuc, fields: f.skip(1) })
            },
        }
    }
}

/// What a run of atom lines holds: the atoms in order, or the error of the
/// first line that has one.
#[verifier::opaque]
pub open spec fn read_lines(atom_lines: Seq<Seq<u8>>) -> Result<Seq<XyzAtomView>, CintError>
    decreases atom_lines.len(),
{
    if atom_lines.len() == 0 {
        Ok(Seq::empty())
    } else {
        match read_lines(atom_lines.drop_last()) {
            Err(e) => Err(e),
            Ok(atoms) => match read_line(atom_lines.last()) {
                Err(e) => Err(e),
                Ok(atom) => Ok(atoms.push(atom)),
            },
        }
    }
}

/// The atom lines of a geometry: its lines after the count line and the
/// comment line.
pub open spec fn atom_lines(all: Seq<Seq<u8>>) -> Seq<Seq<u8>> {
    if all.len() <= 2 {
        Seq::empty()
    } else {
        all.skip(2)
    }
}

/// What a geometry text holds.  The first line declares the atom count,
/// the second is a comment, each further line is an atom.  A count line
/// that is missing or is no number gives `NumericParse`; then the first
/// faulty atom line gives its error; then a count that differs from the
/// number of atom lines gives `AtomCountMismatch`.
pub open spec fn read_text(text: Seq<u8>) -> Result<Seq<XyzAtomView>, CintError> {
    let all = lines(text);
    if all.len() == 0 {
        Err(CintError::NumericParse)
    } else {
        match parse_count(strip_cr(all[0])) {
            None => Err(CintError::NumericParse),
            Some(count) => match read_lines(atom_lines(all)) {
                Err(e) => Err(e),
                Ok(atoms) => if atoms.len() != count {
                    Err(CintError::AtomCountMismatch)
                } else {
                    Ok(atoms)
                },
            },
        }
    }
}

/// A run of atom lines that is read gives one atom per line.
pub proof fn lemma_read_lines_len(atom_lines: Seq<Seq<u8>>)
    ensures
        read_lines(atom_lines) is Ok ==> read_lines(atom_lines)->Ok_0.len() == atom_lines.len(),
    decreases atom_lines.len(),
{
    reveal_with_fuel(read_lines, 2);
    if atom_lines.len() > 0 {
        lemma_read_lines_len(atom_lines.drop_last());
    }
}

/// A geometry is read only if its declared count is the number of its
/// atom lines, and then it gives one atom per line: where the two differ
/// and every line can be read, the outcome is `AtomCountMismatch`.
pub proof fn lemma_count_must_match(text: Seq<u8>)
    ensures
        read_text(text) is Ok ==> {
            &&& parse_count(strip_cr(lines(text)[0])) == Some(
                atom_lines(lines(text)).len() as usize,
            )
            &&& read_text(text)->Ok_0.len() == atom_lines(lines(text)).len()
        },
        lines(text).len() > 0 && parse_count(strip_cr(lines(text)[0])) is Some && read_lines(
            atom_lines(lines(text)),
        ) is Ok && parse_count(strip_cr(lines(text)[0]))->Some_0 != atom_lines(lines(text)).len()
            ==> read_text(text) == Err::<Seq<XyzAtomView>, CintError>(
            CintError::AtomCountMismatch,
        ),
{
    lemma_read_lines_len(atom_lines(lines(text)));
}

// ---------------------------------------------------------------------
// Reading
// ---------------------------------------------------------------------

/// Whether the byte is white space.
fn space(b: u8) -> (r: bool)
    ensures
        r == is_space(b),
{
    b == 0x20 || (0x09 <= b && b <= 0x0d)
}

/// The length of the text without the white space at its end.
fn trimmed_len(bytes: &[u8]) -> (n: usize)
    ensures
        n <= bytes@.len(),
        bytes@.take(n as int) == trim_end(bytes@),
{
    let mut n: usize = bytes.len();
    let mut going = true;
    proof {
        assert(bytes@.take(n as int) =~= bytes@);
    }
    while going
        invariant
            n <= bytes@.len(),
            trim_end(bytes@.take(n as int)) == trim_end(bytes@),
            !going ==> trim_end(bytes@.take(n as int)) == bytes@.take(n as int),
        decreases n + if going { 1int } else { 0int },
    {
        if n > 0 && space(bytes[n - 1]) {
            proof {
                assert(bytes@.take(n as int).drop_last() =~= bytes@.take(n - 1));
            }
            n -= 1;
        } else {
            going = false;
        }
    }
    n
}

/// The segments of the first `end` bytes.
fn split_lines(bytes: &[u8], end: usize) -> (out: Vec<Vec<u8>>)
    requires
        end <= bytes@.len(),
    ensures
        byte_rows(out@) == segments(bytes@.take(end as int)),
{
    let mut out: Vec<Vec<u8>> = Vec::new();
    let mut current: Vec<u8> = Vec::new();
    let mut i: usize = 0;
    proof {
        assert(byte_rows(out@).push(current@) =~= segments(bytes@.take(0)));
    }
    while i < end
        invariant
            end <= bytes@.len(),
            i <= end,
            byte_rows(out@).push(current@) == segments(bytes@.take(i as int)),
        decreases end - i,
    {
        let b = bytes[i];
        let ghost front = segments(bytes@.take(i as int));
        proof {
            assert(bytes@.take(i + 1).drop_last() =~= bytes@.take(i as int));
            assert(front.last() == current@);
            assert(front.drop_last() =~= byte_rows(out@));
        }
        if b == 0x0a {
            out.push(current);
            current = Vec::new();
            proof {
                assert(byte_rows(out@) =~= front);
            }
        } else {
            current.push(b);
        }
        i += 1;
    }
    let ghost front = byte_rows(out@);
    out.push(current);
    proof {
        assert(byte_rows(out@) =~= front.push(current@));
    }
    out
}

/// The fields of a line.
#[verifier::rlimit(50)]
fn split_fields(line: &Vec<u8>) -> (out: Vec<Vec<u8>>)
    ensures
        byte_rows(out@) == fields(line@),
{
    let mut out: Vec<Vec<u8>> = Vec::new();
    let mut current: Vec<u8> = Vec::new();
    let mut inside = false;
    let mut i: usize = 0;
    proof {
        assert(byte_rows(out@) =~= fields(line@.take(0)));
    }
    while i < line.len()
        invariant
            i <= line.len(),
            inside <==> i > 0 && !is_space(line@[i - 1]),
            fields(line@.take(i as int)) == if inside {
                byte_rows(out@).push(current@)
            } else {
                byte_rows(out@)
            },
        decreases line.len() - i,
    {
        let b = line[i];
        let ghost front = fields(line@.take(i as int));
        let ghost rows = byte_rows(out@);
        proof {
            assert(line@.take(i + 1).drop_last() =~= line@.take(i as int));
        }
        if space(b) {
            if inside {
                out.push(current);
                current = Vec::new();
                inside = false;
                proof {
                    assert(byte_rows(out@) =~= front);
                }
            }
        } else {
            if inside {
                current.push(b);
                proof {
                    assert(front.drop_last() =~= rows);
                }
            } else {
                current = Vec::new();
                current.push(b);
                inside = true;
                proof {
                    assert(current@ =~= seq![b]);
                }
            }
        }
        i += 1;
    }
    proof {
        assert(line@.take(i as int) =~= line@);
    }
    if inside {
        let ghost rows = byte_rows(out@);
        out.push(current);
        proof {
            assert(byte_rows(out@) =~= rows.push(current@));
        }
    }
    out
}

/// The number written by the first digits of a run of digits is at most
/// the number written by all.
proof fn lemma_decimal_prefix(digits: Seq<u8>, k: int)
    requires
        all_digits(digits),
        0 <= k <= digits.len(),
    ensures
        decimal(digits.take(k)) <= decimal(digits),
    decreases digits.len() - k,
{
    if k == digits.len() {
        assert(digits.take(k) =~= digits);
    } else {
        assert(digits.take(k + 1).drop_last() =~= digits.take(k));
        assert(is_digit(digits[k]));
        lemma_decimal_prefix(digits, k + 1);
    }
}

/// The atom count that the count line declares.
#[verifier::rlimit(50)]
fn read_count(line: &Vec<u8>) -> (r: Option<usize>)
    ensures
        r == parse_count(strip_cr(line@)),
{
    let mut end: usize = line.len();
    if end > 0 && line[end - 1] == 0x0d {
        end -= 1;
    }
    let start: usize = if end > 0 && line[0] == 0x2b {
        1
    } else {
        0
    };
    let ghost digits = line@.subrange(start as int, end as int);
    proof {
        assert(strip_cr(line@) =~= line@.take(end as int));
        assert(unsigned(strip_cr(line@)) =~= digits);
    }
    if start == end {
        return None;
    }
    let mut value: usize = 0;
    let mut i: usize = start;
    proof {
        assert(digits.take(0) =~= Seq::<u8>::empty());
    }
    while i < end
        invariant
            start <= i <= end,
            end <= line@.len(),
            digits == line@.subrange(start as int, end as int),
            digits == unsigned(strip_cr(line@)),
            all_digits(digits.take(i - start)),
            value == decimal(digits.take(i - start)),
        decreases end - i,
    {
        let b = line[i];
        proof {
            assert(digits[i - start] == b);
            assert(digits.take(i - start + 1).drop_last() =~= digits.take(i - start));
        }
        if b < 0x30 || b > 0x39 {
            assert(!is_digit(digits[i - start]));
            return None;
        }
        let d = (b - 0x30) as usize;
        if value > (usize::MAX - d) / 10 {
            proof {
                assert(decimal(digits.take(i - start + 1)) > usize::MAX);
                if all_digits(digits) {
                    lemma_decimal_prefix(digits, i - start + 1);
                }
            }
            return None;
        }
        value = value * 10 + d;
        i += 1;
    }
    proof {
        assert(digits.take(i - start) =~= digits);
    }
    Some(value)
}

/// The atom that an atom line holds.
fn read_atom(line: &Vec<u8>) -> (r: Result<XyzAtom, CintError>)
    ensures
        match r {
            Ok(atom) => read_line(line@) is Ok && read_line(line@)->Ok_0 == atom@,
            Err(e) => read_line(line@) is Err && read_line(line@)->Err_0 == e,
        },
{
    reveal(read_line);
    let mut found = split_fields(line);
    if found.len() == 0 {
        return Err(CintError::UnknownElementSymbol);
    }
    match find_element(found[0].as_slice()) {
        None => Err(CintError::UnknownElementSymbol),
        Some(nuc) => {
            if found.len() > 4 {
                return Err(CintError::NumericParse);
            }
            let ghost all = byte_rows(found@);
            let _ = found.remove(0);
            let atom = XyzAtom { nuc, fields: found };
            proof {
                assert(atom@.fields =~= all.skip(1));
            }
            Ok(atom)
        },
    }
}

/// Once a line has an error, so has every longer run of lines: the same.
#[verifier::rlimit(50)]
proof fn lemma_read_lines_error(atom_lines: Seq<Seq<u8>>, k: int)
    requires
        0 <= k <= atom_lines.len(),
        read_lines(atom_lines.take(k)) is Err,
    ensures
        read_lines(atom_lines) == read_lines(atom_lines.take(k)),
    decreases atom_lines.len() - k,
{
    if k == atom_lines.len() {
        assert(atom_lines.take(k) =~= atom_lines);
    } else {
        lemma_read_lines_next(atom_lines, k);
        lemma_read_lines_error(atom_lines, k + 1);
    }
}

/// No lines hold no atoms.
proof fn lemma_read_lines_none(atom_lines: Seq<Seq<u8>>)
    ensures
        read_lines(atom_lines.take(0)) == Ok::<Seq<XyzAtomView>, CintError>(Seq::empty()),
{
    reveal_with_fuel(read_lines, 2);
    assert(atom_lines.take(0) =~= Seq::<Seq<u8>>::empty());
}

/// What one line more holds: the error of the lines before it, else its
/// own error, else the atoms of the lines before it and its atom.
#[verifier::rlimit(50)]
proof fn lemma_read_lines_next(atom_lines: Seq<Seq<u8>>, k: int)
    requires
        0 <= k < atom_lines.len(),
    ensures
        read_lines(atom_lines.take(k + 1)) == match read_lines(atom_lines.take(k)) {
            Err(e) => Err::<Seq<XyzAtomView>, CintError>(e),
            Ok(atoms) => match read_line(atom_lines[k]) {
                Err(e) => Err(e),
                Ok(atom) => Ok(atoms.push(atom)),
            },
        },
{
    reveal_with_fuel(read_lines, 2);
    assert(atom_lines.take(k + 1).drop_last() =~= atom_lines.take(k));
}

/// Reads a geometry text: the atom count on the first line, a comment on
/// the second, then one atom per line as a symbol and up to three
/// coordinate fields.  The fields are handed out as they stand.
#[verifier::rlimit(50)]
pub fn read_xyz(xyz_str: &str) -> (r: Result<Vec<XyzAtom>, CintError>)
    ensures
        match r {
            Ok(atoms) => read_text(xyz_str.spec_bytes()) is Ok && read_text(
                xyz_str.spec_bytes(),
            )->Ok_0 == atoms_view(atoms@),
            Err(e) => read_text(xyz_str.spec_bytes()) is Err && read_text(
                xyz_str.spec_bytes(),
            )->Err_0 == e,
        },
{
    let bytes = xyz_str.as_bytes();
    let end = trimmed_len(bytes);
    if end == 0 {
        return Err(CintError::NumericParse);
    }
    let all = split_lines(bytes, end);
    let ghost rows = byte_rows(all@);
    assert(rows == lines(bytes@));
    assert(all@.len() >= 1) by {
        lemma_segments_len(bytes@.take(end as int));
    }
    let count = match read_count(&all[0]) {
        None => {
            return Err(CintError::NumericParse);
        },
        Some(count) => count,
    };
    let atoms = match read_atoms(&all) {
        Err(e) => {
            return Err(e);
        },
        Ok(atoms) => atoms,
    };
    proof {
        lemma_read_lines_len(atom_lines(rows));
    }
    if atoms.len() != count {
        return Err(CintError::AtomCountMismatch);
    }
    Ok(atoms)
}

/// The atoms of the atom lines among the given lines.
#[verifier::rlimit(50)]
fn read_atoms(all: &Vec<Vec<u8>>) -> (r: Result<Vec<XyzAtom>, CintError>)
    ensures
        match r {
            Ok(atoms) => read_lines(atom_lines(byte_rows(all@))) is Ok && read_lines(
                atom_lines(byte_rows(all@)),
            )->Ok_0 == atoms_view(atoms@),
            Err(e) => read_lines(atom_lines(byte_rows(all@))) is Err && read_lines(
                atom_lines(byte_rows(all@)),
            )->Err_0 == e,
        },
{
    let ghost rest = atom_lines(byte_rows(all@));
    let mut atoms: Vec<XyzAtom> = Vec::new();
    proof {
        lemma_read_lines_none(rest);
        assert(atoms_view(atoms@) =~= Seq::<XyzAtomView>::empty());
    }
    if all.len() <= 2 {
        proof {
            assert(rest.take(0) =~= rest);
        }
        return Ok(atoms);
    }
    let mut k: usize = 2;
    while k < all.len()
        invariant
            all@.len() > 2,
            rest == atom_lines(byte_rows(all@)),
            rest.len() == all@.len() - 2,
            forall|j: int| 0 <= j < rest.len() ==> #[trigger] rest[j] == all@[j + 2]@,
            2 <= k <= all.len(),
            read_lines(rest.take(k - 2)) is Ok,
            read_lines(rest.take(k - 2))->Ok_0 == atoms_view(atoms@),
        decreases all.len() - k,
    {
        proof {
            lemma_read_lines_next(rest, k - 2);
            assert(rest[k - 2] == all@[k as int]@);
        }
        match read_atom(&all[k]) {
            Err(e) => {
                proof {
                    lemma_read_lines_error(rest, k - 1);
                }
                return Err(e);
            },
            Ok(atom) => {
                let ghost before = atoms_view(atoms@);
                atoms.push(atom);
                proof {
                    assert(atoms_view(atoms@) =~= before.push(atom@));
                }
            },
        }
        k += 1;
    }
    proof {
        assert(rest.take(k - 2) =~= rest);
    }
    Ok(atoms)
}

/// A text has at least one segment.
proof fn lemma_segments_len(s: Seq<u8>)
    ensures
        segments(s).len() >= 1,
    decreases s.len(),
{
    if s.len() > 0 {
        lemma_segments_len(s.drop_last());
    }
}

// ---------------------------------------------------------------------
// From fields to atom groups
// ---------------------------------------------------------------------

/// The reader may give `value` for the field.
pub open spec fn reads<P: Fn(&Vec<u8>) -> Option<Binary64>>(
    read: &P,
    field: Seq<u8>,
    value: Option<Binary64>,
) -> bool {
    exists|f: Vec<u8>| f@ == field && read.ensures((&f,), value)
}

/// The reader may give the triple for the coordinate fields of an atom: a
/// value for each field, zero where a field is missing.
pub open spec fn reads_triple<P: Fn(&Vec<u8>) -> Option<Binary64>>(
    read: &P,
    coordinate_fields: Seq<Seq<u8>>,
    triple: Seq<Binary64>,
) -> bool {
    &&& triple.len() == 3
    &&& forall|k: int|
        0 <= k < 3 ==> if k < coordinate_fields.len() {
            reads(read, coordinate_fields[k], Some(#[trigger] triple[k]))
        } else {
            triple[k] == 0
        }
}

/// The reader may refuse one of the fields.
pub open spec fn refuses<P: Fn(&Vec<u8>) -> Option<Binary64>>(
    read: &P,
    coordinate_fields: Seq<Seq<u8>>,
) -> bool {
    exists|k: int| 0 <= k < coordinate_fields.len() && reads(read, #[trigger] coordinate_fields[k], None)
}

impl XyzAtom {
    /// The coordinates of the atom: what `read` makes of each field, and
    /// zero for a missing field.  Fails with `NumericParse` if `read`
    /// refuses a field.
    pub fn coordinates<P: Fn(&Vec<u8>) -> Option<Binary64>>(&self, read: &P) -> (r: Result<
        [Binary64; 3],
        CintError,
    >)
        requires
            self@.fields.len() <= 3,
            forall|f: &Vec<u8>| read.requires((f,)),
        ensures
            match r {
                Ok(triple) => reads_triple(read, self@.fields, triple@),
                Err(e) => e == CintError::NumericParse && refuses(read, self@.fields),
            },
    {
        let mut values: Vec<Binary64> = Vec::new();
        let mut k: usize = 0;
        while k < self.fields.len()
            invariant
                self.fields@.len() <= 3,
                forall|f: &Vec<u8>| read.requires((f,)),
                k <= self.fields.len(),
                values@.len() == k,
                forall|j: int|
                    0 <= j < k ==> reads(read, self@.fields[j], Some(#[trigger] values@[j])),
            decreases self.fields.len() - k,
        {
            match read(&self.fields[k]) {
                None => {
                    proof {
                        assert(self.fields@[k as int]@ == self@.fields[k as int]);
                        assert(reads(read, self@.fields[k as int], None));
                    }
                    return Err(CintError::NumericParse);
                },
                Some(value) => {
                    proof {
                        assert(self.fields@[k as int]@ == self@.fields[k as int]);
                        assert(reads(read, self@.fields[k as int], Some(value)));
                    }
                    values.push(value);
                },
            }
            k += 1;
        }
        let x = if values.len() > 0 {
            values[0]
        } else {
            0
        };
        let y = if values.len() > 1 {
            values[1]
        } else {
            0
        };
        let z = if values.len() > 2 {
            values[2]
        } else {
            0
        };
        let triple = [x, y, z];
        proof {
            assert(triple@[0] == x && triple@[1] == y && triple@[2] == z);
        }
        Ok(triple)
    }
}

/// The coordinates of the atoms of one element, in the order of the atoms.
pub open spec fn coords_of(placed: Seq<(u8, [Binary64; 3])>, nuc: u8) -> Seq<Seq<Binary64>>
    decreases placed.len(),
{
    if placed.len() == 0 {
        Seq::empty()
    } else {
        let front = coords_of(placed.drop_last(), nuc);
        if placed.last().0 == nuc {
            front.push(placed.last().1@)
        } else {
            front
        }
    }
}

/// The basis that the map holds for an element, where there is a map.
pub open spec fn basis_of_element(basis: Option<BTreeMap<u8, Vec<CGTO>>>, nuc: u8) -> Option<
    Seq<CgtoView>,
> {
    match basis {
        Some(m) => Some(cgtos_view(m@[nuc]@)),
        None => None,
    }
}

/// The group of the atoms of one element: a point nucleus without
/// fractional charge, with the basis that the map holds for the element.
pub open spec fn group_of(
    placed: Seq<(u8, [Binary64; 3])>,
    basis: Option<BTreeMap<u8, Vec<CGTO>>>,
    nuc: u8,
) -> AtomGroupView {
    AtomGroupView {
        basis: basis_of_element(basis, nuc),
        charge_of: nuc,
        nuc_mod_of: 0,
        zeta: 0,
        frac_charge: 0,
        coordinates: coords_of(placed, nuc),
    }
}

/// The groups of the elements with atomic number below `upto` that have
/// atoms, in ascending order of the atomic number.
pub open spec fn grouped(
    placed: Seq<(u8, [Binary64; 3])>,
    basis: Option<BTreeMap<u8, Vec<CGTO>>>,
    upto: int,
) -> Seq<AtomGroupView>
    decreases upto,
{
    if upto <= 0 {
        Seq::empty()
    } else {
        let front = grouped(placed, basis, upto - 1);
        let nuc = (upto - 1) as u8;
        if coords_of(placed, nuc).len() > 0 {
            front.push(group_of(placed, basis, nuc))
        } else {
            front
        }
    }
}

/// Where there is a map of bases, it holds one for every element below
/// `upto` that has atoms.
pub open spec fn bases_present(
    placed: Seq<(u8, [Binary64; 3])>,
    basis: Option<BTreeMap<u8, Vec<CGTO>>>,
    upto: int,
) -> bool {
    basis is Some ==> forall|nuc: u8|
        nuc < upto && coords_of(placed, nuc).len() > 0 ==> #[trigger] basis->Some_0@.contains_key(
            nuc,
        )
}

/// The coordinates of the atoms of one element.
fn collect_coords(placed: &Vec<(u8, [Binary64; 3])>, nuc: u8) -> (r: Vec<[Binary64; 3]>)
    ensures
        coords_view(r@) == coords_of(placed@, nuc),
{
    let mut out: Vec<[Binary64; 3]> = Vec::new();
    let mut a: usize = 0;
    proof {
        assert(placed@.take(0) =~= Seq::empty());
        assert(coords_view(out@) =~= coords_of(placed@.take(0), nuc));
    }
    while a < placed.len()
        invariant
            a <= placed.len(),
            coords_view(out@) == coords_of(placed@.take(a as int), nuc),
        decreases placed.len() - a,
    {
        let ghost before = coords_view(out@);
        proof {
            assert(placed@.take(a + 1).drop_last() =~= placed@.take(a as int));
        }
        if placed[a].0 == nuc {
            out.push(placed[a].1);
            proof {
                assert(coords_view(out@) =~= before.push(
                    placed@[a as int].1@,
                ));
            }
        }
        a += 1;
    }
    proof {
        assert(placed@.take(a as int) =~= placed@);
    }
    out
}

/// Groups the atoms by element, in ascending order of the atomic number;
/// within a group the atoms keep their order.  Each group is a point
/// nucleus without fractional charge and has the basis that the map holds
/// for its element, or none where no map is given.
///
/// Fails with `MissingBasis` if a map is given that lacks an element.
#[verifier::rlimit(50)]
pub fn group_atoms(placed: &Vec<(u8, [Binary64; 3])>, basis: &Option<BTreeMap<u8, Vec<CGTO>>>) -> (r:
    Result<Vec<CintAtomGroup>, CintError>)
    ensures
        match r {
            Ok(groups) => bases_present(placed@, *basis, 256) && group_views(groups@) == grouped(
                placed@,
                *basis,
                256,
            ),
            Err(e) => e == CintError::MissingBasis && !bases_present(placed@, *basis, 256),
        },
{
    let mut groups: Vec<CintAtomGroup> = Vec::new();
    let mut upto: usize = 0;
    proof {
        assert(group_views(groups@) =~= grouped(placed@, *basis, 0));
    }
    while upto < 256
        invariant
            upto <= 256,
            bases_present(placed@, *basis, upto as int),
            group_views(groups@) == grouped(placed@, *basis, upto as int),
        decreases 256 - upto,
    {
        let nuc = upto as u8;
        let coordinates = collect_coords(placed, nuc);
        if coordinates.len() > 0 {
            let group_basis = match basis {
                None => None,
                Some(m) => match basis_for(m, nuc) {
                    None => {
                        return Err(CintError::MissingBasis);
                    },
                    Some(cgtos) => {
                        let copy = clone_cgtos(cgtos);
                        Some(copy)
                    },
                },
            };
            let ghost before = group_views(groups@);
            let group = CintAtomGroup::new(group_basis, nuc, 0, 0, 0, coordinates);
            groups.push(group);
            proof {
                assert(group@ == group_of(placed@, *basis, nuc));
                assert(group_views(groups@) =~= before.push(group@));
            }
        }
        upto += 1;
    }
    Ok(groups)
}

/// Every atom of a run of atom lines that is read has at most three
/// coordinate fields.
pub proof fn lemma_read_lines_fields(atom_lines: Seq<Seq<u8>>)
    ensures
        read_lines(atom_lines) is Ok ==> forall|a: int|
            0 <= a < read_lines(atom_lines)->Ok_0.len() ==> (#[trigger] read_lines(
                atom_lines,
            )->Ok_0[a]).fields.len() <= 3,
    decreases atom_lines.len(),
{
    reveal_with_fuel(read_lines, 2);
    reveal(read_line);
    if atom_lines.len() > 0 {
        lemma_read_lines_fields(atom_lines.drop_last());
    }
}

/// The reader may give the atoms these places: each atom keeps its
/// element, and its triple is what the reader makes of its fields.
pub open spec fn placement<P: Fn(&Vec<u8>) -> Option<Binary64>>(
    read: &P,
    atoms: Seq<XyzAtomView>,
    placed: Seq<(u8, [Binary64; 3])>,
) -> bool {
    &&& placed.len() == atoms.len()
    &&& forall|a: int|
        0 <= a < atoms.len() ==> (#[trigger] placed[a]).0 == atoms[a].nuc && reads_triple(
            read,
            atoms[a].fields,
            placed[a].1@,
        )
}

/// The reader may refuse a field of one of the atoms.
pub open spec fn some_refused<P: Fn(&Vec<u8>) -> Option<Binary64>>(
    read: &P,
    atoms: Seq<XyzAtomView>,
) -> bool {
    exists|a: int| 0 <= a < atoms.len() && refuses(read, (#[trigger] atoms[a]).fields)
}

impl CintAtomGroup {
    /// The atom groups of a geometry text, one per element in ascending
    /// order of the atomic number.
    ///
    /// The text is read as [`read_xyz`] reads it.  `read` turns a coordinate
    /// field into a number in the unit of the environment buffer; a missing
    /// field counts as zero.  Each group has the basis that `basis` holds for
    /// its element, or none where no map is given.
    ///
    /// Fails with the error of the text if it has one; else with
    /// `NumericParse` if `read` refuses a field; else with `MissingBasis` if
    /// the map lacks an element.
    #[verifier::rlimit(50)]
    pub fn from_xyz<P: Fn(&Vec<u8>) -> Option<Binary64>>(
        xyz_str: &str,
        basis: Option<BTreeMap<u8, Vec<CGTO>>>,
        read: &P,
    ) -> (r: Result<Vec<Self>, CintError>)
        requires
            forall|f: &Vec<u8>| read.requires((f,)),
        ensures
            match r {
                Ok(groups) => {
                    &&& read_text(xyz_str.spec_bytes()) is Ok
                    &&& exists|placed: Seq<(u8, [Binary64; 3])>|
                        {
                            &&& placement(read, read_text(xyz_str.spec_bytes())->Ok_0, placed)
                            &&& bases_present(placed, basis, 256)
                            &&& group_views(groups@) == grouped(placed, basis, 256)
                        }
                },
                Err(e) => match read_text(xyz_str.spec_bytes()) {
                    Err(first) => e == first,
                    Ok(atoms) => {
                        ||| e == CintError::NumericParse && some_refused(read, atoms)
                        ||| e == CintError::MissingBasis && exists|placed: Seq<(u8, [Binary64; 3])>|
                            placement(read, atoms, placed) && !bases_present(placed, basis, 256)
                    },
                },
            },
    {
        let atoms = match read_xyz(xyz_str) {
            Err(e) => {
                return Err(e);
            },
            Ok(atoms) => atoms,
        };
        let ghost views = atoms_view(atoms@);
        proof {
            let all = lines(xyz_str.spec_bytes());
            lemma_read_lines_fields(atom_lines(all));
        }
        let mut placed: Vec<(u8, [Binary64; 3])> = Vec::new();
        let mut a: usize = 0;
        while a < atoms.len()
            invariant
                views == atoms_view(atoms@),
                read_text(xyz_str.spec_bytes()) is Ok,
                read_text(xyz_str.spec_bytes())->Ok_0 == views,
                forall|f: &Vec<u8>| read.requires((f,)),
                forall|i: int| 0 <= i < views.len() ==> (#[trigger] views[i]).fields.len() <= 3,
                a <= atoms.len(),
                placed@.len() == a,
                forall|i: int|
                    0 <= i < a ==> (#[trigger] placed@[i]).0 == views[i].nuc && reads_triple(
                        read,
                        views[i].fields,
                        placed@[i].1@,
                    ),
            decreases atoms.len() - a,
        {
            assert(views[a as int] == atoms@[a as int]@);
            match atoms[a].coordinates(read) {
                Err(e) => {
                    proof {
                        assert(refuses(read, views[a as int].fields));
                    }
                    return Err(e);
                },
                Ok(triple) => {
                    placed.push((atoms[a].nuc, triple));
                },
            }
            a += 1;
        }
        proof {
            assert(placement(read, views, placed@));
        }
        group_atoms(&placed, &basis)
    }
}

} // verus!
