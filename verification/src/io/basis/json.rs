//! The basis-set file: elements keyed by atomic number, each with its
//! shells, whose numbers are decimal strings.
use std::collections::HashMap;
use vstd::prelude::*;
use crate::cint::rawdata::{cgtos_view, normalized, CgtoView, GetCGTO, CGTO};
use crate::cint::Binary64;
use crate::error::CintError;

verus! {

/// The strings of each row of a table.
pub open spec fn string_rows(rows: Seq<Vec<String>>) -> Seq<Seq<String>> {
    Seq::new(rows.len(), |i: int| rows[i]@)
}

/// One shell of an element: sub-shells that share their exponents.
#[derive(Debug)]
pub struct ElectronShells {
    function_type: String,
    region: String,
    angular_momentum: Vec<u8>,
    exponents: Vec<String>,
    coefficients: Vec<Vec<String>>,
}

/// The content of an [`ElectronShells`].
pub struct ElectronShellsView {
    pub function_type: Seq<char>,
    pub region: Seq<char>,
    pub angular_momentum: Seq<u8>,
    pub exponents: Seq<String>,
    pub coefficients: Seq<Seq<String>>,
}

impl ElectronShellsView {
    /// One coefficient row per sub-shell, one coefficient per exponent.
    pub open spec fn well_shaped(self) -> bool {
        &&& self.coefficients.len() == self.angular_momentum.len()
        &&& forall|i: int|
            0 <= i < self.coefficients.len() ==> (#[trigger] self.coefficients[i]).len()
                == self.exponents.len()
    }
}

impl View for ElectronShells {
    type V = ElectronShellsView;

    closed spec fn view(&self) -> ElectronShellsView {
        ElectronShellsView {
            function_type: self.function_type@,
            region: self.region@,
            angular_momentum: self.angular_momentum@,
            exponents: self.exponents@,
            coefficients: string_rows(self.coefficients@),
        }
    }
}

/// The reader gives a number for each string of the row: `values`.
pub open spec fn parsed_row<P: Fn(&String) -> Option<Binary64>>(
    parse: &P,
    texts: Seq<String>,
    values: Seq<Binary64>,
) -> bool {
    &&& values.len() == texts.len()
    &&& forall|i: int|
        0 <= i < texts.len() ==> parse.ensures((&texts[i],), Some(#[trigger] values[i]))
}

/// The reader may refuse a string of the row.
pub open spec fn row_fails<P: Fn(&String) -> Option<Binary64>>(parse: &P, texts: Seq<String>) -> bool {
    exists|i: int| 0 <= i < texts.len() && parse.ensures((&#[trigger] texts[i],), None)
}

/// `raw` is the shell with its strings read as numbers.
pub open spec fn parsed_shell<P: Fn(&String) -> Option<Binary64>>(
    parse: &P,
    shell: ElectronShellsView,
    kappa_of: i8,
    raw: CgtoView,
) -> bool {
    &&& raw.kappa_of == kappa_of
    &&& raw.angl == shell.angular_momentum
    &&& parsed_row(parse, shell.exponents, raw.exp)
    &&& raw.coeff.len() == shell.coefficients.len()
    &&& forall|i: int|
        0 <= i < shell.coefficients.len() ==> parsed_row(
            parse,
            shell.coefficients[i],
            #[trigger] raw.coeff[i],
        )
}

/// The reader may refuse a string of the shell.
pub open spec fn shell_fails<P: Fn(&String) -> Option<Binary64>>(
    parse: &P,
    shell: ElectronShellsView,
) -> bool {
    ||| row_fails(parse, shell.exponents)
    ||| exists|i: int|
        0 <= i < shell.coefficients.len() && row_fails(parse, #[trigger] shell.coefficients[i])
}

/// `cgto` is what the shell gives: its strings read as numbers, and the
/// coefficients normalized if `norm` is set.
pub open spec fn shell_gives<P, F>(
    parse: &P,
    scale: &F,
    shell: ElectronShellsView,
    kappa_of: i8,
    norm: bool,
    cgto: CgtoView,
) -> bool where P: Fn(&String) -> Option<Binary64>, F: Fn(u8, Binary64, Binary64) -> Binary64 {
    exists|raw: CgtoView|
        parsed_shell(parse, shell, kappa_of, raw) && if norm {
            normalized(scale, raw, cgto)
        } else {
            cgto == raw
        }
}

/// Reads each string of a row as a number.
fn parse_row<P: Fn(&String) -> Option<Binary64>>(texts: &Vec<String>, parse: &P) -> (r: Option<
    Vec<Binary64>,
>)
    requires
        forall|text: &String| parse.requires((text,)),
    ensures
        match r {
            Some(values) => parsed_row(parse, texts@, values@),
            None => row_fails(parse, texts@),
        },
{
    let mut values: Vec<Binary64> = Vec::new();
    let mut i: usize = 0;
    while i < texts.len()
        invariant
            forall|text: &String| parse.requires((text,)),
            i <= texts.len(),
            values@.len() == i,
            forall|j: int| 0 <= j < i ==> parse.ensures((&texts@[j],), Some(#[trigger] values@[j])),
        decreases texts.len() - i,
    {
        match parse(&texts[i]) {
            None => {
                return None;
            },
            Some(value) => {
                values.push(value);
            },
        }
        i += 1;
    }
    Some(values)
}

impl ElectronShells {
    /// A shell with the given content.
    pub fn new(
        function_type: String,
        region: String,
        angular_momentum: Vec<u8>,
        exponents: Vec<String>,
        coefficients: Vec<Vec<String>>,
    ) -> (r: Self)
        ensures
            r@ == (ElectronShellsView {
                function_type: function_type@,
                region: region@,
                angular_momentum: angular_momentum@,
                exponents: exponents@,
                coefficients: string_rows(coefficients@),
            }),
    {
        ElectronShells { function_type, region, angular_momentum, exponents, coefficients }
    }

    /// The kind of functions of the shell.
    pub fn function_type(&self) -> (r: &String)
        ensures
            r@ == self@.function_type,
    {
        &self.function_type
    }

    /// The region of the shell.
    pub fn region(&self) -> (r: &String)
        ensures
            r@ == self@.region,
    {
        &self.region
    }

    /// The angular momentum of each sub-shell.
    pub fn angular_momentum(&self) -> (r: &Vec<u8>)
        ensures
            r@ == self@.angular_momentum,
    {
        &self.angular_momentum
    }

    /// The exponents, as decimal strings.
    pub fn exponents(&self) -> (r: &Vec<String>)
        ensures
            r@ == self@.exponents,
    {
        &self.exponents
    }

    /// The coefficients, one row per sub-shell, as decimal strings.
    pub fn coefficients(&self) -> (r: &Vec<Vec<String>>)
        ensures
            string_rows(r@) == self@.coefficients,
    {
        &self.coefficients
    }

    /// Whether the shell has one coefficient row per sub-shell and one
    /// coefficient per exponent.
    pub fn is_well_shaped(&self) -> (b: bool)
        ensures
            b == self@.well_shaped(),
    {
        if self.coefficients.len() != self.angular_momentum.len() {
            return false;
        }
        let mut i: usize = 0;
        while i < self.coefficients.len()
            invariant
                i <= self.coefficients.len(),
                self.coefficients.len() == self.angular_momentum.len(),
                forall|j: int|
                    0 <= j < i ==> (#[trigger] self@.coefficients[j]).len()
                        == self@.exponents.len(),
            decreases self.coefficients.len() - i,
        {
            if self.coefficients[i].len() != self.exponents.len() {
                assert(self@.coefficients[i as int].len() != self@.exponents.len());
                return false;
            }
            i += 1;
        }
        true
    }

    /// The group of functions of the shell: its strings read as numbers by
    /// `parse`, and the coefficients normalized by `scale` if `norm` is set.
    ///
    /// Fails with `NumericParse` if `parse` refuses a string.
    pub fn to_cgto<P, F>(&self, kappa_of: i8, norm: bool, parse: &P, scale: &F) -> (r: Result<
        CGTO,
        CintError,
    >) where P: Fn(&String) -> Option<Binary64>, F: Fn(u8, Binary64, Binary64) -> Binary64
        requires
            norm ==> self@.well_shaped(),
            forall|text: &String| parse.requires((text,)),
            forall|l: u8, e: Binary64, c: Binary64| scale.requires((l, e, c)),
        ensures
            match r {
                Ok(cgto) => shell_gives(parse, scale, self@, kappa_of, norm, cgto@),
                Err(e) => e == CintError::NumericParse && shell_fails(parse, self@),
            },
    {
        let exp = match parse_row(&self.exponents, parse) {
            None => {
                return Err(CintError::NumericParse);
            },
            Some(exp) => exp,
        };
        let mut coeff: Vec<Vec<Binary64>> = Vec::new();
        let mut i: usize = 0;
        while i < self.coefficients.len()
            invariant
                forall|text: &String| parse.requires((text,)),
                i <= self.coefficients.len(),
                coeff@.len() == i,
                forall|j: int|
                    0 <= j < i ==> parsed_row(parse, self@.coefficients[j], (#[trigger] coeff@[j])@),
            decreases self.coefficients.len() - i,
        {
            match parse_row(&self.coefficients[i], parse) {
                None => {
                    proof {
                        assert(row_fails(parse, self@.coefficients[i as int]));
                    }
                    return Err(CintError::NumericParse);
                },
                Some(row) => {
                    coeff.push(row);
                },
            }
            i += 1;
        }
        let cgto = CGTO { kappa_of, angl: self.angular_momentum.clone(), exp, coeff };
        let ghost raw = cgto@;
        proof {
            assert(raw.angl =~= self@.angular_momentum);
            assert forall|j: int| 0 <= j < self@.coefficients.len() implies parsed_row(
                parse,
                self@.coefficients[j],
                #[trigger] raw.coeff[j],
            ) by {
                assert(raw.coeff[j] == cgto.coeff@[j]@);
            }
            assert(parsed_shell(parse, self@, kappa_of, raw));
        }
        if norm {
            proof {
                assert forall|j: int| 0 <= j < raw.coeff.len() implies (#[trigger] raw.coeff[j]).len()
                    == raw.exp.len() by {
                    assert(parsed_row(parse, self@.coefficients[j], raw.coeff[j]));
                    assert(self@.coefficients[j].len() == self@.exponents.len());
                }
            }
            Ok(cgto.norm(scale))
        } else {
            Ok(cgto)
        }
    }
}

impl GetCGTO for ElectronShells {
    type OutPut = CGTO;

    open spec fn normalizable(&self) -> bool {
        self@.well_shaped()
    }

    fn to_cgto<P, F>(&self, kappa_of: i8, norm: bool, parse: &P, scale: &F) -> (r: Result<
        CGTO,
        CintError,
    >) where P: Fn(&String) -> Option<Binary64>, F: Fn(u8, Binary64, Binary64) -> Binary64
        ensures
            match r {
                Ok(cgto) => shell_gives(parse, scale, self@, kappa_of, norm, cgto@),
                Err(e) => e == CintError::NumericParse && shell_fails(parse, self@),
            },
    {
        ElectronShells::to_cgto(self, kappa_of, norm, parse, scale)
    }
}

/// The content of each shell of a list.
pub open spec fn shells_view(shells: Seq<ElectronShells>) -> Seq<ElectronShellsView> {
    Seq::new(shells.len(), |i: int| shells[i]@)
}

/// One element of a basis set: its shells and where they were published.
#[derive(Debug)]
pub struct Elements {
    references: Vec<String>,
    electron_shells: Vec<ElectronShells>,
}

/// The content of an [`Elements`].
pub struct ElementsView {
    pub references: Seq<String>,
    pub electron_shells: Seq<ElectronShellsView>,
}

impl ElementsView {
    /// Every shell is well shaped.
    pub open spec fn well_shaped(self) -> bool {
        forall|s: int|
            0 <= s < self.electron_shells.len() ==> (#[trigger] self.electron_shells[s]).well_shaped()
    }
}

impl View for Elements {
    type V = ElementsView;

    closed spec fn view(&self) -> ElementsView {
        ElementsView {
            references: self.references@,
            electron_shells: shells_view(self.electron_shells@),
        }
    }
}

impl Elements {
    /// An element with the given references and shells.
    pub fn new(references: Vec<String>, electron_shells: Vec<ElectronShells>) -> (r: Self)
        ensures
            r@ == (ElementsView {
                references: references@,
                electron_shells: shells_view(electron_shells@),
            }),
    {
        Elements { references, electron_shells }
    }

    /// Where the shells were published.
    pub fn references(&self) -> (r: &Vec<String>)
        ensures
            r@ == self@.references,
    {
        &self.references
    }

    /// The shells of the element.
    pub fn electron_shells(&self) -> (r: &Vec<ElectronShells>)
        ensures
            shells_view(r@) == self@.electron_shells,
    {
        &self.electron_shells
    }

    /// Whether every shell has one coefficient row per sub-shell and one
    /// coefficient per exponent.
    pub fn is_well_shaped(&self) -> (b: bool)
        ensures
            b == self@.well_shaped(),
    {
        let mut s: usize = 0;
        while s < self.electron_shells.len()
            invariant
                s <= self.electron_shells.len(),
                forall|j: int| 0 <= j < s ==> (#[trigger] self@.electron_shells[j]).well_shaped(),
            decreases self.electron_shells.len() - s,
        {
            if !self.electron_shells[s].is_well_shaped() {
                assert(!self@.electron_shells[s as int].well_shaped());
                return false;
            }
            s += 1;
        }
        true
    }

    /// The groups of functions of the element, one per shell in order,
    /// each as [`ElectronShells::to_cgto`] gives it.
    ///
    /// Fails with `NumericParse` if `parse` refuses a string of a shell.
    pub fn to_cgto<P, F>(&self, kappa_of: i8, norm: bool, parse: &P, scale: &F) -> (r: Result<
        Vec<CGTO>,
        CintError,
    >) where P: Fn(&String) -> Option<Binary64>, F: Fn(u8, Binary64, Binary64) -> Binary64
        requires
            norm ==> self@.well_shaped(),
            forall|text: &String| parse.requires((text,)),
            forall|l: u8, e: Binary64, c: Binary64| scale.requires((l, e, c)),
        ensures
            match r {
                Ok(cgtos) => element_gives(parse, scale, self@, kappa_of, norm, cgtos_view(cgtos@)),
                Err(e) => e == CintError::NumericParse && element_fails(parse, self@),
            },
    {
        let mut cgtos: Vec<CGTO> = Vec::new();
        let mut s: usize = 0;
        while s < self.electron_shells.len()
            invariant
                norm ==> self@.well_shaped(),
                forall|text: &String| parse.requires((text,)),
                forall|l: u8, e: Binary64, c: Binary64| scale.requires((l, e, c)),
                s <= self.electron_shells.len(),
                cgtos@.len() == s,
                forall|j: int|
                    0 <= j < s ==> shell_gives(
                        parse,
                        scale,
                        self@.electron_shells[j],
                        kappa_of,
                        norm,
                        (#[trigger] cgtos@[j])@,
                    ),
            decreases self.electron_shells.len() - s,
        {
            assert(self@.electron_shells[s as int] == self.electron_shells@[s as int]@);
            match self.electron_shells[s].to_cgto(kappa_of, norm, parse, scale) {
                Err(e) => {
                    return Err(e);
                },
                Ok(cgto) => {
                    cgtos.push(cgto);
                },
            }
            s += 1;
        }
        Ok(cgtos)
    }
}

/// `cgtos` is what the element gives: for each shell what the shell gives.
pub open spec fn element_gives<P, F>(
    parse: &P,
    scale: &F,
    element: ElementsView,
    kappa_of: i8,
    norm: bool,
    cgtos: Seq<CgtoView>,
) -> bool where P: Fn(&String) -> Option<Binary64>, F: Fn(u8, Binary64, Binary64) -> Binary64 {
    &&& cgtos.len() == element.electron_shells.len()
    &&& forall|s: int|
        0 <= s < element.electron_shells.len() ==> shell_gives(
            parse,
            scale,
            element.electron_shells[s],
            kappa_of,
            norm,
            #[trigger] cgtos[s],
        )
}

/// The reader may refuse a string of a shell of the element.
pub open spec fn element_fails<P: Fn(&String) -> Option<Binary64>>(
    parse: &P,
    element: ElementsView,
) -> bool {
    exists|s: int|
        0 <= s < element.electron_shells.len() && shell_fails(
            parse,
            #[trigger] element.electron_shells[s],
        )
}

impl GetCGTO for Elements {
    type OutPut = Vec<CGTO>;

    open spec fn normalizable(&self) -> bool {
        self@.well_shaped()
    }

    fn to_cgto<P, F>(&self, kappa_of: i8, norm: bool, parse: &P, scale: &F) -> (r: Result<
        Vec<CGTO>,
        CintError,
    >) where P: Fn(&String) -> Option<Binary64>, F: Fn(u8, Binary64, Binary64) -> Binary64
        ensures
            match r {
                Ok(cgtos) => element_gives(parse, scale, self@, kappa_of, norm, cgtos_view(cgtos@)),
                Err(e) => e == CintError::NumericParse && element_fails(parse, self@),
            },
    {
        Elements::to_cgto(self, kappa_of, norm, parse, scale)
    }
}

/// The schema that a basis-set file declares.
#[derive(Debug)]
struct MolssiBseSchema {
    schema_type: String,
    schema_version: String,
}

/// A basis-set file.
#[derive(Debug)]
pub struct JsonBasis {
    molssi_bse_schema: MolssiBseSchema,
    description: String,
    data_source: String,
    elements: HashMap<u8, Elements>,
}

impl JsonBasis {
    /// The declared schema type.
    pub closed spec fn spec_schema_type(&self) -> Seq<char> {
        self.molssi_bse_schema.schema_type@
    }

    /// The declared schema version.
    pub closed spec fn spec_schema_version(&self) -> Seq<char> {
        self.molssi_bse_schema.schema_version@
    }

    /// The description of the basis set.
    pub closed spec fn spec_description(&self) -> Seq<char> {
        self.description@
    }

    /// The source of the data.
    pub closed spec fn spec_data_source(&self) -> Seq<char> {
        self.data_source@
    }

    /// The elements, keyed by atomic number.
    pub closed spec fn spec_elements(&self) -> Map<u8, Elements> {
        self.elements@
    }

    /// A basis-set file with the given content.
    pub fn new(
        schema_type: String,
        schema_version: String,
        description: String,
        data_source: String,
        elements: HashMap<u8, Elements>,
    ) -> (r: Self)
        ensures
            r.spec_schema_type() == schema_type@,
            r.spec_schema_version() == schema_version@,
            r.spec_description() == description@,
            r.spec_data_source() == data_source@,
            r.spec_elements() == elements@,
    {
        JsonBasis {
            molssi_bse_schema: MolssiBseSchema { schema_type, schema_version },
            description,
            data_source,
            elements,
        }
    }

    /// The declared schema type.
    pub fn schema_type(&self) -> (r: &String)
        ensures
            r@ == self.spec_schema_type(),
    {
        &self.molssi_bse_schema.schema_type
    }

    /// The declared schema version.
    pub fn schema_version(&self) -> (r: &String)
        ensures
            r@ == self.spec_schema_version(),
    {
        &self.molssi_bse_schema.schema_version
    }

    /// The description of the basis set.
    pub fn description(&self) -> (r: &String)
        ensures
            r@ == self.spec_description(),
    {
        &self.description
    }

    /// The source of the data.
    pub fn data_source(&self) -> (r: &String)
        ensures
            r@ == self.spec_data_source(),
    {
        &self.data_source
    }

    /// The elements, keyed by atomic number.
    pub fn elements(&self) -> (r: &HashMap<u8, Elements>)
        ensures
            r@ == self.spec_elements(),
    {
        &self.elements
    }

    /// The element with the given atomic number, if the file holds it.
    pub fn get_elements(&self, nuc: u8) -> (r: Option<&Elements>)
        ensures
            match r {
                Some(element) => self.spec_elements().contains_key(nuc) && *element
                    == self.spec_elements()[nuc],
                None => !self.spec_elements().contains_key(nuc),
            },
    {
        self.elements.get(&nuc)
    }
}

} // verus!
