//! The chemical elements, their symbols and standard atomic weights.
use crate::rational::{Frac, Rational};
use vstd::prelude::*;
use vstd::string::StringSliceAdditionalSpecFns;

verus! {

/// The ways in which building or converting a formula can fail.
#[derive(Clone, Copy, Debug, PartialEq, Eq, Structural)]
pub enum FormulaError {
    /// Reading the input failed.
    FileIOError,
    /// The text does not follow the formula grammar.
    FileParseError,
    /// Mass fractions add up to more than 100 percent.
    WeightPercentOverflow,
    /// There is no formula to work on.
    NoFormula,
    /// A conversion would divide by zero: the mass fractions leave no
    /// residue for the molar part, or a quantity used as a divisor (an
    /// atomic weight, a molecular weight, a total) is zero.
    IndeterminateScale,
    /// An element code that names no element.
    UnknownElement,
    /// An exact result does not fit the 64-bit numerator and denominator of
    /// a [`Rational`].
    ArithmeticOverflow,
}

impl FormulaError {
    /// A short description of the error.
    pub fn description(&self) -> (r: &'static str)
        ensures
            *self == FormulaError::FileIOError ==> r@ == "File IO error"@,
            *self == FormulaError::FileParseError ==> r@ == "File parse error"@,
            *self == FormulaError::WeightPercentOverflow ==> r@ == "Weight percent overflow"@,
            *self == FormulaError::NoFormula ==> r@ == "No formula"@,
            *self == FormulaError::IndeterminateScale ==> r@ == "Indeterminate scale"@,
            *self == FormulaError::UnknownElement ==> r@ == "Unknown element"@,
            *self == FormulaError::ArithmeticOverflow ==> r@ == "Arithmetic overflow"@,
    {
        match self {
            FormulaError::FileIOError => "File IO error",
            FormulaError::FileParseError => "File parse error",
            FormulaError::WeightPercentOverflow => "Weight percent overflow",
            FormulaError::NoFormula => "No formula",
            FormulaError::IndeterminateScale => "Indeterminate scale",
            FormulaError::UnknownElement => "Unknown element",
            FormulaError::ArithmeticOverflow => "Arithmetic overflow",
        }
    }
}

/// Number of slots indexed by atomic number, the sentinel `Unknown` at zero.
pub const ELEMENT_SLOTS: usize = 119;

/// The chemical elements in order of atomic number, after the sentinel
/// `Unknown` that stands for no element.
#[derive(Clone, Copy, Debug, PartialEq, Eq, Structural, Hash)]
pub enum ElementSymbol {
    Unknown,
    H,
    He,
    Li,
    Be,
    B,
    C,
    N,
    O,
    F,
    Ne,
    Na,
    Mg,
    Al,
    Si,
    P,
    S,
    Cl,
    Ar,
    K,
    Ca,
    Sc,
    Ti,
    V,
    Cr,
    Mn,
    Fe,
    Co,
    Ni,
    Cu,
    Zn,
    Ga,
    Ge,
    As,
    Se,
    Br,
    Kr,
    Rb,
    Sr,
    Y,
    Zr,
    Nb,
    Mo,
    Tc,
    Ru,
    Rh,
    Pd,
    Ag,
    Cd,
    In,
    Sn,
    Sb,
    Te,
    I,
    Xe,
    Cs,
    Ba,
    La,
    Ce,
    Pr,
    Nd,
    Pm,
    Sm,
    Eu,
    Gd,
    Tb,
    Dy,
    Ho,
    Er,
    Tm,
    Yb,
    Lu,
    Hf,
    Ta,
    W,
    Re,
    Os,
    Ir,
    Pt,
    Au,
    Hg,
    Tl,
    Pb,
    Bi,
    Po,
    At,
    Rn,
    Fr,
    Ra,
    Ac,
    Th,
    Pa,
    U,
    Np,
    Pu,
    Am,
    Cm,
    Bk,
    Cf,
    Es,
    Fm,
    Md,
    No,
    Lr,
    Rf,
    Db,
    Sg,
    Bh,
    Hs,
    Mt,
    Ds,
    Rg,
    Cn,
    Nh,
    Fl,
    Mc,
    Lv,
    Ts,
    Og,
}

impl Default for ElementSymbol {
    fn default() -> (r: ElementSymbol)
        ensures
            r == ElementSymbol::Unknown,
    {
        ElementSymbol::Unknown
    }
}

/// The element with atomic number `i`; `Unknown` for zero and beyond the table.
pub open spec fn element_at(i: int) -> ElementSymbol {
    if i == 1 {
        ElementSymbol::H
    } else if i == 2 {
        ElementSymbol::He
    } else if i == 3 {
        ElementSymbol::Li
    } else if i == 4 {
        ElementSymbol::Be
    } else if i == 5 {
        ElementSymbol::B
    } else if i == 6 {
        ElementSymbol::C
    } else if i == 7 {
        ElementSymbol::N
    } else if i == 8 {
        ElementSymbol::O
    } else if i == 9 {
        ElementSymbol::F
    } else if i == 10 {
        ElementSymbol::Ne
    } else if i == 11 {
        ElementSymbol::Na
    } else if i == 12 {
        ElementSymbol::Mg
    } else if i == 13 {
        ElementSymbol::Al
    } else if i == 14 {
        ElementSymbol::Si
    } else if i == 15 {
        ElementSymbol::P
    } else if i == 16 {
        ElementSymbol::S
    } else if i == 17 {
        ElementSymbol::Cl
    } else if i == 18 {
        ElementSymbol::Ar
    } else if i == 19 {
        ElementSymbol::K
    } else if i == 20 {
        ElementSymbol::Ca
    } else if i == 21 {
        ElementSymbol::Sc
    } else if i == 22 {
        ElementSymbol::Ti
    } else if i == 23 {
        ElementSymbol::V
    } else if i == 24 {
        ElementSymbol::Cr
    } else if i == 25 {
        ElementSymbol::Mn
    } else if i == 26 {
        ElementSymbol::Fe
    } else if i == 27 {
        ElementSymbol::Co
    } else if i == 28 {
        ElementSymbol::Ni
    } else if i == 29 {
        ElementSymbol::Cu
    } else if i == 30 {
        ElementSymbol::Zn
    } else if i == 31 {
        ElementSymbol::Ga
    } else if i == 32 {
        ElementSymbol::Ge
    } else if i == 33 {
        ElementSymbol::As
    } else if i == 34 {
        ElementSymbol::Se
    } else if i == 35 {
        ElementSymbol::Br
    } else if i == 36 {
        ElementSymbol::Kr
    } else if i == 37 {
        ElementSymbol::Rb
    } else if i == 38 {
        ElementSymbol::Sr
    } else if i == 39 {
        ElementSymbol::Y
    } else if i == 40 {
        ElementSymbol::Zr
    } else if i == 41 {
        ElementSymbol::Nb
    } else if i == 42 {
        ElementSymbol::Mo
    } else if i == 43 {
        ElementSymbol::Tc
    } else if i == 44 {
        ElementSymbol::Ru
    } else if i == 45 {
        ElementSymbol::Rh
    } else if i == 46 {
        ElementSymbol::Pd
    } else if i == 47 {
        ElementSymbol::Ag
    } else if i == 48 {
        ElementSymbol::Cd
    } else if i == 49 {
        ElementSymbol::In
    } else if i == 50 {
        ElementSymbol::Sn
    } else if i == 51 {
        ElementSymbol::Sb
    } else if i == 52 {
        ElementSymbol::Te
    } else if i == 53 {
        ElementSymbol::I
    } else if i == 54 {
        ElementSymbol::Xe
    } else if i == 55 {
        ElementSymbol::Cs
    } else if i == 56 {
        ElementSymbol::Ba
    } else if i == 57 {
        ElementSymbol::La
    } else if i == 58 {
        ElementSymbol::Ce
    } else if i == 59 {
        ElementSymbol::Pr
    } else if i == 60 {
        ElementSymbol::Nd
    } else if i == 61 {
        ElementSymbol::Pm
    } else if i == 62 {
        ElementSymbol::Sm
    } else if i == 63 {
        ElementSymbol::Eu
    } else if i == 64 {
        ElementSymbol::Gd
    } else if i == 65 {
        ElementSymbol::Tb
    } else if i == 66 {
        ElementSymbol::Dy
    } else if i == 67 {
        ElementSymbol::Ho
    } else if i == 68 {
        ElementSymbol::Er
    } else if i == 69 {
        ElementSymbol::Tm
    } else if i == 70 {
        ElementSymbol::Yb
    } else if i == 71 {
        ElementSymbol::Lu
    } else if i == 72 {
        ElementSymbol::Hf
    } else if i == 73 {
        ElementSymbol::Ta
    } else if i == 74 {
        ElementSymbol::W
    } else if i == 75 {
        ElementSymbol::Re
    } else if i == 76 {
        ElementSymbol::Os
    } else if i == 77 {
        ElementSymbol::Ir
    } else if i == 78 {
        ElementSymbol::Pt
    } else if i == 79 {
        ElementSymbol::Au
    } else if i == 80 {
        ElementSymbol::Hg
    } else if i == 81 {
        ElementSymbol::Tl
    } else if i == 82 {
        ElementSymbol::Pb
    } else if i == 83 {
        ElementSymbol::Bi
    } else if i == 84 {
        ElementSymbol::Po
    } else if i == 85 {
        ElementSymbol::At
    } else if i == 86 {
        ElementSymbol::Rn
    } else if i == 87 {
        ElementSymbol::Fr
    } else if i == 88 {
        ElementSymbol::Ra
    } else if i == 89 {
        ElementSymbol::Ac
    } else if i == 90 {
        ElementSymbol::Th
    } else if i == 91 {
        ElementSymbol::Pa
    } else if i == 92 {
        ElementSymbol::U
    } else if i == 93 {
        ElementSymbol::Np
    } else if i == 94 {
        ElementSymbol::Pu
    } else if i == 95 {
        ElementSymbol::Am
    } else if i == 96 {
        ElementSymbol::Cm
    } else if i == 97 {
        ElementSymbol::Bk
    } else if i == 98 {
        ElementSymbol::Cf
    } else if i == 99 {
        ElementSymbol::Es
    } else if i == 100 {
        ElementSymbol::Fm
    } else if i == 101 {
        ElementSymbol::Md
    } else if i == 102 {
        ElementSymbol::No
    } else if i == 103 {
        ElementSymbol::Lr
    } else if i == 104 {
        ElementSymbol::Rf
    } else if i == 105 {
        ElementSymbol::Db
    } else if i == 106 {
        ElementSymbol::Sg
    } else if i == 107 {
        ElementSymbol::Bh
    } else if i == 108 {
        ElementSymbol::Hs
    } else if i == 109 {
        ElementSymbol::Mt
    } else if i == 110 {
        ElementSymbol::Ds
    } else if i == 111 {
        ElementSymbol::Rg
    } else if i == 112 {
        ElementSymbol::Cn
    } else if i == 113 {
        ElementSymbol::Nh
    } else if i == 114 {
        ElementSymbol::Fl
    } else if i == 115 {
        ElementSymbol::Mc
    } else if i == 116 {
        ElementSymbol::Lv
    } else if i == 117 {
        ElementSymbol::Ts
    } else if i == 118 {
        ElementSymbol::Og
    } else {
        ElementSymbol::Unknown
    }
}

/// The atomic weight of the element in slot `i`.
pub open spec fn weight_at(i: int) -> Frac {
    element_at(i).weight()
}

/// Whether `text` spells the symbol given as its two letters, the second
/// zero for a one-letter symbol.
pub open spec fn spells(text: Seq<u8>, code: (u8, u8)) -> bool {
    if code.1 == 0 {
        text.len() == 1 && text[0] == code.0
    } else {
        text.len() == 2 && text[0] == code.0 && text[1] == code.1
    }
}

impl ElementSymbol {
    /// The atomic number; zero for `Unknown`.
    pub open spec fn index(self) -> int {
        match self {
            ElementSymbol::Unknown => 0,
            ElementSymbol::H => 1,
            ElementSymbol::He => 2,
            ElementSymbol::Li => 3,
            ElementSymbol::Be => 4,
            ElementSymbol::B => 5,
            ElementSymbol::C => 6,
            ElementSymbol::N => 7,
            ElementSymbol::O => 8,
            ElementSymbol::F => 9,
            ElementSymbol::Ne => 10,
            ElementSymbol::Na => 11,
            ElementSymbol::Mg => 12,
            ElementSymbol::Al => 13,
            ElementSymbol::Si => 14,
            ElementSymbol::P => 15,
            ElementSymbol::S => 16,
            ElementSymbol::Cl => 17,
            ElementSymbol::Ar => 18,
            ElementSymbol::K => 19,
            ElementSymbol::Ca => 20,
            ElementSymbol::Sc => 21,
            ElementSymbol::Ti => 22,
            ElementSymbol::V => 23,
            ElementSymbol::Cr => 24,
            ElementSymbol::Mn => 25,
            ElementSymbol::Fe => 26,
            ElementSymbol::Co => 27,
            ElementSymbol::Ni => 28,
            ElementSymbol::Cu => 29,
            ElementSymbol::Zn => 30,
            ElementSymbol::Ga => 31,
            ElementSymbol::Ge => 32,
            ElementSymbol::As => 33,
            ElementSymbol::Se => 34,
            ElementSymbol::Br => 35,
            ElementSymbol::Kr => 36,
            ElementSymbol::Rb => 37,
            ElementSymbol::Sr => 38,
            ElementSymbol::Y => 39,
            ElementSymbol::Zr => 40,
            ElementSymbol::Nb => 41,
            ElementSymbol::Mo => 42,
            ElementSymbol::Tc => 43,
            ElementSymbol::Ru => 44,
            ElementSymbol::Rh => 45,
            ElementSymbol::Pd => 46,
            ElementSymbol::Ag => 47,
            ElementSymbol::Cd => 48,
            ElementSymbol::In => 49,
            ElementSymbol::Sn => 50,
            ElementSymbol::Sb => 51,
            ElementSymbol::Te => 52,
            ElementSymbol::I => 53,
            ElementSymbol::Xe => 54,
            ElementSymbol::Cs => 55,
            ElementSymbol::Ba => 56,
            ElementSymbol::La => 57,
            ElementSymbol::Ce => 58,
            ElementSymbol::Pr => 59,
            ElementSymbol::Nd => 60,
            ElementSymbol::Pm => 61,
            ElementSymbol::Sm => 62,
            ElementSymbol::Eu => 63,
            ElementSymbol::Gd => 64,
            ElementSymbol::Tb => 65,
            ElementSymbol::Dy => 66,
            ElementSymbol::Ho => 67,
            ElementSymbol::Er => 68,
            ElementSymbol::Tm => 69,
            ElementSymbol::Yb => 70,
            ElementSymbol::Lu => 71,
            ElementSymbol::Hf => 72,
            ElementSymbol::Ta => 73,
            ElementSymbol::W => 74,
            ElementSymbol::Re => 75,
            ElementSymbol::Os => 76,
            ElementSymbol::Ir => 77,
            ElementSymbol::Pt => 78,
            ElementSymbol::Au => 79,
            ElementSymbol::Hg => 80,
            ElementSymbol::Tl => 81,
            ElementSymbol::Pb => 82,
            ElementSymbol::Bi => 83,
            ElementSymbol::Po => 84,
            ElementSymbol::At => 85,
            ElementSymbol::Rn => 86,
            ElementSymbol::Fr => 87,
            ElementSymbol::Ra => 88,
            ElementSymbol::Ac => 89,
            ElementSymbol::Th => 90,
            ElementSymbol::Pa => 91,
            ElementSymbol::U => 92,
            ElementSymbol::Np => 93,
            ElementSymbol::Pu => 94,
            ElementSymbol::Am => 95,
            ElementSymbol::Cm => 96,
            ElementSymbol::Bk => 97,
            ElementSymbol::Cf => 98,
            ElementSymbol::Es => 99,
            ElementSymbol::Fm => 100,
            ElementSymbol::Md => 101,
            ElementSymbol::No => 102,
            ElementSymbol::Lr => 103,
            ElementSymbol::Rf => 104,
            ElementSymbol::Db => 105,
            ElementSymbol::Sg => 106,
            ElementSymbol::Bh => 107,
            ElementSymbol::Hs => 108,
            ElementSymbol::Mt => 109,
            ElementSymbol::Ds => 110,
            ElementSymbol::Rg => 111,
            ElementSymbol::Cn => 112,
            ElementSymbol::Nh => 113,
            ElementSymbol::Fl => 114,
            ElementSymbol::Mc => 115,
            ElementSymbol::Lv => 116,
            ElementSymbol::Ts => 117,
            ElementSymbol::Og => 118,
        }
    }

    /// The letters of the symbol, the second zero for a one-letter symbol;
    /// `Unknown` has no letters.
    pub open spec fn code(self) -> (u8, u8) {
        match self {
            ElementSymbol::Unknown => (0, 0),
            ElementSymbol::H => (72, 0),
            ElementSymbol::He => (72, 101),
            ElementSymbol::Li => (76, 105),
            ElementSymbol::Be => (66, 101),
            ElementSymbol::B => (66, 0),
            ElementSymbol::C => (67, 0),
            ElementSymbol::N => (78, 0),
            ElementSymbol::O => (79, 0),
            ElementSymbol::F => (70, 0),
            ElementSymbol::Ne => (78, 101),
            ElementSymbol::Na => (78, 97),
            ElementSymbol::Mg => (77, 103),
            ElementSymbol::Al => (65, 108),
            ElementSymbol::Si => (83, 105),
            ElementSymbol::P => (80, 0),
            ElementSymbol::S => (83, 0),
            ElementSymbol::Cl => (67, 108),
            ElementSymbol::Ar => (65, 114),
            ElementSymbol::K => (75, 0),
            ElementSymbol::Ca => (67, 97),
            ElementSymbol::Sc => (83, 99),
            ElementSymbol::Ti => (84, 105),
            ElementSymbol::V => (86, 0),
            ElementSymbol::Cr => (67, 114),
            ElementSymbol::Mn => (77, 110),
            ElementSymbol::Fe => (70, 101),
            ElementSymbol::Co => (67, 111),
            ElementSymbol::Ni => (78, 105),
            ElementSymbol::Cu => (67, 117),
            ElementSymbol::Zn => (90, 110),
            ElementSymbol::Ga => (71, 97),
            ElementSymbol::Ge => (71, 101),
            ElementSymbol::As => (65, 115),
            ElementSymbol::Se => (83, 101),
            ElementSymbol::Br => (66, 114),
            ElementSymbol::Kr => (75, 114),
            ElementSymbol::Rb => (82, 98),
            ElementSymbol::Sr => (83, 114),
            ElementSymbol::Y => (89, 0),
            ElementSymbol::Zr => (90, 114),
            ElementSymbol::Nb => (78, 98),
            ElementSymbol::Mo => (77, 111),
            ElementSymbol::Tc => (84, 99),
            ElementSymbol::Ru => (82, 117),
            ElementSymbol::Rh => (82, 104),
            ElementSymbol::Pd => (80, 100),
            ElementSymbol::Ag => (65, 103),
            ElementSymbol::Cd => (67, 100),
            ElementSymbol::In => (73, 110),
            ElementSymbol::Sn => (83, 110),
            ElementSymbol::Sb => (83, 98),
            ElementSymbol::Te => (84, 101),
            ElementSymbol::I => (73, 0),
            ElementSymbol::Xe => (88, 101),
            ElementSymbol::Cs => (67, 115),
            ElementSymbol::Ba => (66, 97),
            ElementSymbol::La => (76, 97),
            ElementSymbol::Ce => (67, 101),
            ElementSymbol::Pr => (80, 114),
            ElementSymbol::Nd => (78, 100),
            ElementSymbol::Pm => (80, 109),
            ElementSymbol::Sm => (83, 109),
            ElementSymbol::Eu => (69, 117),
            ElementSymbol::Gd => (71, 100),
            ElementSymbol::Tb => (84, 98),
            ElementSymbol::Dy => (68, 121),
            ElementSymbol::Ho => (72, 111),
            ElementSymbol::Er => (69, 114),
            ElementSymbol::Tm => (84, 109),
            ElementSymbol::Yb => (89, 98),
            ElementSymbol::Lu => (76, 117),
            ElementSymbol::Hf => (72, 102),
            ElementSymbol::Ta => (84, 97),
            ElementSymbol::W => (87, 0),
            ElementSymbol::Re => (82, 101),
            ElementSymbol::Os => (79, 115),
            ElementSymbol::Ir => (73, 114),
            ElementSymbol::Pt => (80, 116),
            ElementSymbol::Au => (65, 117),
            ElementSymbol::Hg => (72, 103),
            ElementSymbol::Tl => (84, 108),
            ElementSymbol::Pb => (80, 98),
            ElementSymbol::Bi => (66, 105),
            ElementSymbol::Po => (80, 111),
            ElementSymbol::At => (65, 116),
            ElementSymbol::Rn => (82, 110),
            ElementSymbol::Fr => (70, 114),
            ElementSymbol::Ra => (82, 97),
            ElementSymbol::Ac => (65, 99),
            ElementSymbol::Th => (84, 104),
            ElementSymbol::Pa => (80, 97),
            ElementSymbol::U => (85, 0),
            ElementSymbol::Np => (78, 112),
            ElementSymbol::Pu => (80, 117),
            ElementSymbol::Am => (65, 109),
            ElementSymbol::Cm => (67, 109),
            ElementSymbol::Bk => (66, 107),
            ElementSymbol::Cf => (67, 102),
            ElementSymbol::Es => (69, 115),
            ElementSymbol::Fm => (70, 109),
            ElementSymbol::Md => (77, 100),
            ElementSymbol::No => (78, 111),
            ElementSymbol::Lr => (76, 114),
            ElementSymbol::Rf => (82, 102),
            ElementSymbol::Db => (68, 98),
            ElementSymbol::Sg => (83, 103),
            ElementSymbol::Bh => (66, 104),
            ElementSymbol::Hs => (72, 115),
            ElementSymbol::Mt => (77, 116),
            ElementSymbol::Ds => (68, 115),
            ElementSymbol::Rg => (82, 103),
            ElementSymbol::Cn => (67, 110),
            ElementSymbol::Nh => (78, 104),
            ElementSymbol::Fl => (70, 108),
            ElementSymbol::Mc => (77, 99),
            ElementSymbol::Lv => (76, 118),
            ElementSymbol::Ts => (84, 115),
            ElementSymbol::Og => (79, 103),
        }
    }

    /// The standard atomic weight, as the exact decimal of the table; zero
    /// for `Unknown`.
    pub open spec fn weight(self) -> Frac {
        match self {
            ElementSymbol::Unknown => Frac { n: 0, d: 10 },
            ElementSymbol::H => Frac { n: 1008, d: 1000 },
            ElementSymbol::He => Frac { n: 4002602, d: 1000000 },
            ElementSymbol::Li => Frac { n: 694, d: 100 },
            ElementSymbol::Be => Frac { n: 90121831, d: 10000000 },
            ElementSymbol::B => Frac { n: 1081, d: 100 },
            ElementSymbol::C => Frac { n: 12011, d: 1000 },
            ElementSymbol::N => Frac { n: 14007, d: 1000 },
            ElementSymbol::O => Frac { n: 15999, d: 1000 },
            ElementSymbol::F => Frac { n: 18998403163, d: 1000000000 },
            ElementSymbol::Ne => Frac { n: 201797, d: 10000 },
            ElementSymbol::Na => Frac { n: 2298976928, d: 100000000 },
            ElementSymbol::Mg => Frac { n: 24305, d: 1000 },
            ElementSymbol::Al => Frac { n: 269815384, d: 10000000 },
            ElementSymbol::Si => Frac { n: 28085, d: 1000 },
            ElementSymbol::P => Frac { n: 30973761998, d: 1000000000 },
            ElementSymbol::S => Frac { n: 3206, d: 100 },
            ElementSymbol::Cl => Frac { n: 3545, d: 100 },
            ElementSymbol::Ar => Frac { n: 3995, d: 100 },
            ElementSymbol::K => Frac { n: 390983, d: 10000 },
            ElementSymbol::Ca => Frac { n: 40078, d: 1000 },
            ElementSymbol::Sc => Frac { n: 44955907, d: 1000000 },
            ElementSymbol::Ti => Frac { n: 47867, d: 1000 },
            ElementSymbol::V => Frac { n: 509415, d: 10000 },
            ElementSymbol::Cr => Frac { n: 519961, d: 10000 },
            ElementSymbol::Mn => Frac { n: 54938043, d: 1000000 },
            ElementSymbol::Fe => Frac { n: 55845, d: 1000 },
            ElementSymbol::Co => Frac { n: 58933194, d: 1000000 },
            ElementSymbol::Ni => Frac { n: 586934, d: 10000 },
            ElementSymbol::Cu => Frac { n: 63546, d: 1000 },
            ElementSymbol::Zn => Frac { n: 6538, d: 100 },
            ElementSymbol::Ga => Frac { n: 69723, d: 1000 },
            ElementSymbol::Ge => Frac { n: 72630, d: 1000 },
            ElementSymbol::As => Frac { n: 74921595, d: 1000000 },
            ElementSymbol::Se => Frac { n: 78971, d: 1000 },
            ElementSymbol::Br => Frac { n: 79904, d: 1000 },
            ElementSymbol::Kr => Frac { n: 83798, d: 1000 },
            ElementSymbol::Rb => Frac { n: 854678, d: 10000 },
            ElementSymbol::Sr => Frac { n: 8762, d: 100 },
            ElementSymbol::Y => Frac { n: 88905838, d: 1000000 },
            ElementSymbol::Zr => Frac { n: 91224, d: 1000 },
            ElementSymbol::Nb => Frac { n: 9290637, d: 100000 },
            ElementSymbol::Mo => Frac { n: 9595, d: 100 },
            ElementSymbol::Tc => Frac { n: 970, d: 10 },
            ElementSymbol::Ru => Frac { n: 10107, d: 100 },
            ElementSymbol::Rh => Frac { n: 10290549, d: 100000 },
            ElementSymbol::Pd => Frac { n: 10642, d: 100 },
            ElementSymbol::Ag => Frac { n: 1078682, d: 10000 },
            ElementSymbol::Cd => Frac { n: 112414, d: 1000 },
            ElementSymbol::In => Frac { n: 114818, d: 1000 },
            ElementSymbol::Sn => Frac { n: 118710, d: 1000 },
            ElementSymbol::Sb => Frac { n: 121760, d: 1000 },
            ElementSymbol::Te => Frac { n: 12760, d: 100 },
            ElementSymbol::I => Frac { n: 12690447, d: 100000 },
            ElementSymbol::Xe => Frac { n: 131293, d: 1000 },
            ElementSymbol::Cs => Frac { n: 13290545196, d: 100000000 },
            ElementSymbol::Ba => Frac { n: 137327, d: 1000 },
            ElementSymbol::La => Frac { n: 13890547, d: 100000 },
            ElementSymbol::Ce => Frac { n: 140116, d: 1000 },
            ElementSymbol::Pr => Frac { n: 14090766, d: 100000 },
            ElementSymbol::Nd => Frac { n: 144242, d: 1000 },
            ElementSymbol::Pm => Frac { n: 1450, d: 10 },
            ElementSymbol::Sm => Frac { n: 15036, d: 100 },
            ElementSymbol::Eu => Frac { n: 151964, d: 1000 },
            ElementSymbol::Gd => Frac { n: 15725, d: 100 },
            ElementSymbol::Tb => Frac { n: 158925354, d: 1000000 },
            ElementSymbol::Dy => Frac { n: 162500, d: 1000 },
            ElementSymbol::Ho => Frac { n: 164930329, d: 1000000 },
            ElementSymbol::Er => Frac { n: 167259, d: 1000 },
            ElementSymbol::Tm => Frac { n: 168934219, d: 1000000 },
            ElementSymbol::Yb => Frac { n: 173045, d: 1000 },
            ElementSymbol::Lu => Frac { n: 1749668, d: 10000 },
            ElementSymbol::Hf => Frac { n: 178486, d: 1000 },
            ElementSymbol::Ta => Frac { n: 18094788, d: 100000 },
            ElementSymbol::W => Frac { n: 18384, d: 100 },
            ElementSymbol::Re => Frac { n: 186207, d: 1000 },
            ElementSymbol::Os => Frac { n: 19023, d: 100 },
            ElementSymbol::Ir => Frac { n: 192217, d: 1000 },
            ElementSymbol::Pt => Frac { n: 195084, d: 1000 },
            ElementSymbol::Au => Frac { n: 196966570, d: 1000000 },
            ElementSymbol::Hg => Frac { n: 200592, d: 1000 },
            ElementSymbol::Tl => Frac { n: 20438, d: 100 },
            ElementSymbol::Pb => Frac { n: 2072, d: 10 },
            ElementSymbol::Bi => Frac { n: 20898040, d: 100000 },
            ElementSymbol::Po => Frac { n: 2090, d: 10 },
            ElementSymbol::At => Frac { n: 2100, d: 10 },
            ElementSymbol::Rn => Frac { n: 2220, d: 10 },
            ElementSymbol::Fr => Frac { n: 2230, d: 10 },
            ElementSymbol::Ra => Frac { n: 2260, d: 10 },
            ElementSymbol::Ac => Frac { n: 2270, d: 10 },
            ElementSymbol::Th => Frac { n: 2320377, d: 10000 },
            ElementSymbol::Pa => Frac { n: 23103588, d: 100000 },
            ElementSymbol::U => Frac { n: 23802891, d: 100000 },
            ElementSymbol::Np => Frac { n: 2370, d: 10 },
            ElementSymbol::Pu => Frac { n: 2440, d: 10 },
            ElementSymbol::Am => Frac { n: 2430, d: 10 },
            ElementSymbol::Cm => Frac { n: 2470, d: 10 },
            ElementSymbol::Bk => Frac { n: 2470, d: 10 },
            ElementSymbol::Cf => Frac { n: 2510, d: 10 },
            ElementSymbol::Es => Frac { n: 2520, d: 10 },
            ElementSymbol::Fm => Frac { n: 2570, d: 10 },
            ElementSymbol::Md => Frac { n: 2580, d: 10 },
            ElementSymbol::No => Frac { n: 2590, d: 10 },
            ElementSymbol::Lr => Frac { n: 2620, d: 10 },
            ElementSymbol::Rf => Frac { n: 2670, d: 10 },
            ElementSymbol::Db => Frac { n: 2700, d: 10 },
            ElementSymbol::Sg => Frac { n: 2690, d: 10 },
            ElementSymbol::Bh => Frac { n: 2700, d: 10 },
            ElementSymbol::Hs => Frac { n: 2700, d: 10 },
            ElementSymbol::Mt => Frac { n: 2780, d: 10 },
            ElementSymbol::Ds => Frac { n: 2810, d: 10 },
            ElementSymbol::Rg => Frac { n: 2810, d: 10 },
            ElementSymbol::Cn => Frac { n: 2850, d: 10 },
            ElementSymbol::Nh => Frac { n: 2860, d: 10 },
            ElementSymbol::Fl => Frac { n: 2890, d: 10 },
            ElementSymbol::Mc => Frac { n: 2890, d: 10 },
            ElementSymbol::Lv => Frac { n: 2930, d: 10 },
            ElementSymbol::Ts => Frac { n: 2930, d: 10 },
            ElementSymbol::Og => Frac { n: 2940, d: 10 },
        }
    }

    pub proof fn lemma_index(self)
        ensures
            0 <= self.index() < ELEMENT_SLOTS,
            element_at(self.index()) == self,
            self.weight().valid(),
            self.weight().is_zero() <==> self == ElementSymbol::Unknown,
            self != ElementSymbol::Unknown ==> 65 <= self.code().0 <= 90 && (self.code().1 == 0
                || 97 <= self.code().1 <= 122),
    {
    }

    /// The slots after zero hold the elements, each with a positive weight.
    pub proof fn lemma_slot(i: int)
        requires
            1 <= i < ELEMENT_SLOTS,
        ensures
            element_at(i) != ElementSymbol::Unknown,
            element_at(i).index() == i,
            weight_at(i).n > 0,
    {
    }

    /// The atomic number; zero for `Unknown`.
    pub fn number(&self) -> (r: usize)
        ensures
            r == self.index(),
    {
        match self {
            ElementSymbol::Unknown => 0,
            ElementSymbol::H => 1,
            ElementSymbol::He => 2,
            ElementSymbol::Li => 3,
            ElementSymbol::Be => 4,
            ElementSymbol::B => 5,
            ElementSymbol::C => 6,
            ElementSymbol::N => 7,
            ElementSymbol::O => 8,
            ElementSymbol::F => 9,
            ElementSymbol::Ne => 10,
            ElementSymbol::Na => 11,
            ElementSymbol::Mg => 12,
            ElementSymbol::Al => 13,
            ElementSymbol::Si => 14,
            ElementSymbol::P => 15,
            ElementSymbol::S => 16,
            ElementSymbol::Cl => 17,
            ElementSymbol::Ar => 18,
            ElementSymbol::K => 19,
            ElementSymbol::Ca => 20,
            ElementSymbol::Sc => 21,
            ElementSymbol::Ti => 22,
            ElementSymbol::V => 23,
            ElementSymbol::Cr => 24,
            ElementSymbol::Mn => 25,
            ElementSymbol::Fe => 26,
            ElementSymbol::Co => 27,
            ElementSymbol::Ni => 28,
            ElementSymbol::Cu => 29,
            ElementSymbol::Zn => 30,
            ElementSymbol::Ga => 31,
            ElementSymbol::Ge => 32,
            ElementSymbol::As => 33,
            ElementSymbol::Se => 34,
            ElementSymbol::Br => 35,
            ElementSymbol::Kr => 36,
            ElementSymbol::Rb => 37,
            ElementSymbol::Sr => 38,
            ElementSymbol::Y => 39,
            ElementSymbol::Zr => 40,
            ElementSymbol::Nb => 41,
            ElementSymbol::Mo => 42,
            ElementSymbol::Tc => 43,
            ElementSymbol::Ru => 44,
            ElementSymbol::Rh => 45,
            ElementSymbol::Pd => 46,
            ElementSymbol::Ag => 47,
            ElementSymbol::Cd => 48,
            ElementSymbol::In => 49,
            ElementSymbol::Sn => 50,
            ElementSymbol::Sb => 51,
            ElementSymbol::Te => 52,
            ElementSymbol::I => 53,
            ElementSymbol::Xe => 54,
            ElementSymbol::Cs => 55,
            ElementSymbol::Ba => 56,
            ElementSymbol::La => 57,
            ElementSymbol::Ce => 58,
            ElementSymbol::Pr => 59,
            ElementSymbol::Nd => 60,
            ElementSymbol::Pm => 61,
            ElementSymbol::Sm => 62,
            ElementSymbol::Eu => 63,
            ElementSymbol::Gd => 64,
            ElementSymbol::Tb => 65,
            ElementSymbol::Dy => 66,
            ElementSymbol::Ho => 67,
            ElementSymbol::Er => 68,
            ElementSymbol::Tm => 69,
            ElementSymbol::Yb => 70,
            ElementSymbol::Lu => 71,
            ElementSymbol::Hf => 72,
            ElementSymbol::Ta => 73,
            ElementSymbol::W => 74,
            ElementSymbol::Re => 75,
            ElementSymbol::Os => 76,
            ElementSymbol::Ir => 77,
            ElementSymbol::Pt => 78,
            ElementSymbol::Au => 79,
            ElementSymbol::Hg => 80,
            ElementSymbol::Tl => 81,
            ElementSymbol::Pb => 82,
            ElementSymbol::Bi => 83,
            ElementSymbol::Po => 84,
            ElementSymbol::At => 85,
            ElementSymbol::Rn => 86,
            ElementSymbol::Fr => 87,
            ElementSymbol::Ra => 88,
            ElementSymbol::Ac => 89,
            ElementSymbol::Th => 90,
            ElementSymbol::Pa => 91,
            ElementSymbol::U => 92,
            ElementSymbol::Np => 93,
            ElementSymbol::Pu => 94,
            ElementSymbol::Am => 95,
            ElementSymbol::Cm => 96,
            ElementSymbol::Bk => 97,
            ElementSymbol::Cf => 98,
            ElementSymbol::Es => 99,
            ElementSymbol::Fm => 100,
            ElementSymbol::Md => 101,
            ElementSymbol::No => 102,
            ElementSymbol::Lr => 103,
            ElementSymbol::Rf => 104,
            ElementSymbol::Db => 105,
            ElementSymbol::Sg => 106,
            ElementSymbol::Bh => 107,
            ElementSymbol::Hs => 108,
            ElementSymbol::Mt => 109,
            ElementSymbol::Ds => 110,
            ElementSymbol::Rg => 111,
            ElementSymbol::Cn => 112,
            ElementSymbol::Nh => 113,
            ElementSymbol::Fl => 114,
            ElementSymbol::Mc => 115,
            ElementSymbol::Lv => 116,
            ElementSymbol::Ts => 117,
            ElementSymbol::Og => 118,
        }
    }

    /// The element with atomic number `i`; `Unknown` for zero and beyond the
    /// table.
    pub fn from_number(i: usize) -> (r: ElementSymbol)
        ensures
            r == element_at(i as int),
    {
        match i {
            1 => ElementSymbol::H,
            2 => ElementSymbol::He,
            3 => ElementSymbol::Li,
            4 => ElementSymbol::Be,
            5 => ElementSymbol::B,
            6 => ElementSymbol::C,
            7 => ElementSymbol::N,
            8 => ElementSymbol::O,
            9 => ElementSymbol::F,
            10 => ElementSymbol::Ne,
            11 => ElementSymbol::Na,
            12 => ElementSymbol::Mg,
            13 => ElementSymbol::Al,
            14 => ElementSymbol::Si,
            15 => ElementSymbol::P,
            16 => ElementSymbol::S,
            17 => ElementSymbol::Cl,
            18 => ElementSymbol::Ar,
            19 => ElementSymbol::K,
            20 => ElementSymbol::Ca,
            21 => ElementSymbol::Sc,
            22 => ElementSymbol::Ti,
            23 => ElementSymbol::V,
            24 => ElementSymbol::Cr,
            25 => ElementSymbol::Mn,
            26 => ElementSymbol::Fe,
            27 => ElementSymbol::Co,
            28 => ElementSymbol::Ni,
            29 => ElementSymbol::Cu,
            30 => ElementSymbol::Zn,
            31 => ElementSymbol::Ga,
            32 => ElementSymbol::Ge,
            33 => ElementSymbol::As,
            34 => ElementSymbol::Se,
            35 => ElementSymbol::Br,
            36 => ElementSymbol::Kr,
            37 => ElementSymbol::Rb,
            38 => ElementSymbol::Sr,
            39 => ElementSymbol::Y,
            40 => ElementSymbol::Zr,
            41 => ElementSymbol::Nb,
            42 => ElementSymbol::Mo,
            43 => ElementSymbol::Tc,
            44 => ElementSymbol::Ru,
            45 => ElementSymbol::Rh,
            46 => ElementSymbol::Pd,
            47 => ElementSymbol::Ag,
            48 => ElementSymbol::Cd,
            49 => ElementSymbol::In,
            50 => ElementSymbol::Sn,
            51 => ElementSymbol::Sb,
            52 => ElementSymbol::Te,
            53 => ElementSymbol::I,
            54 => ElementSymbol::Xe,
            55 => ElementSymbol::Cs,
            56 => ElementSymbol::Ba,
            57 => ElementSymbol::La,
            58 => ElementSymbol::Ce,
            59 => ElementSymbol::Pr,
            60 => ElementSymbol::Nd,
            61 => ElementSymbol::Pm,
            62 => ElementSymbol::Sm,
            63 => ElementSymbol::Eu,
            64 => ElementSymbol::Gd,
            65 => ElementSymbol::Tb,
            66 => ElementSymbol::Dy,
            67 => ElementSymbol::Ho,
            68 => ElementSymbol::Er,
            69 => ElementSymbol::Tm,
            70 => ElementSymbol::Yb,
            71 => ElementSymbol::Lu,
            72 => ElementSymbol::Hf,
            73 => ElementSymbol::Ta,
            74 => ElementSymbol::W,
            75 => ElementSymbol::Re,
            76 => ElementSymbol::Os,
            77 => ElementSymbol::Ir,
            78 => ElementSymbol::Pt,
            79 => ElementSymbol::Au,
            80 => ElementSymbol::Hg,
            81 => ElementSymbol::Tl,
            82 => ElementSymbol::Pb,
            83 => ElementSymbol::Bi,
            84 => ElementSymbol::Po,
            85 => ElementSymbol::At,
            86 => ElementSymbol::Rn,
            87 => ElementSymbol::Fr,
            88 => ElementSymbol::Ra,
            89 => ElementSymbol::Ac,
            90 => ElementSymbol::Th,
            91 => ElementSymbol::Pa,
            92 => ElementSymbol::U,
            93 => ElementSymbol::Np,
            94 => ElementSymbol::Pu,
            95 => ElementSymbol::Am,
            96 => ElementSymbol::Cm,
            97 => ElementSymbol::Bk,
            98 => ElementSymbol::Cf,
            99 => ElementSymbol::Es,
            100 => ElementSymbol::Fm,
            101 => ElementSymbol::Md,
            102 => ElementSymbol::No,
            103 => ElementSymbol::Lr,
            104 => ElementSymbol::Rf,
            105 => ElementSymbol::Db,
            106 => ElementSymbol::Sg,
            107 => ElementSymbol::Bh,
            108 => ElementSymbol::Hs,
            109 => ElementSymbol::Mt,
            110 => ElementSymbol::Ds,
            111 => ElementSymbol::Rg,
            112 => ElementSymbol::Cn,
            113 => ElementSymbol::Nh,
            114 => ElementSymbol::Fl,
            115 => ElementSymbol::Mc,
            116 => ElementSymbol::Lv,
            117 => ElementSymbol::Ts,
            118 => ElementSymbol::Og,
            _ => ElementSymbol::Unknown,
        }
    }

    fn code_letters(&self) -> (r: (u8, u8))
        ensures
            r == self.code(),
    {
        match self {
            ElementSymbol::Unknown => (0, 0),
            ElementSymbol::H => (72, 0),
            ElementSymbol::He => (72, 101),
            ElementSymbol::Li => (76, 105),
            ElementSymbol::Be => (66, 101),
            ElementSymbol::B => (66, 0),
            ElementSymbol::C => (67, 0),
            ElementSymbol::N => (78, 0),
            ElementSymbol::O => (79, 0),
            ElementSymbol::F => (70, 0),
            ElementSymbol::Ne => (78, 101),
            ElementSymbol::Na => (78, 97),
            ElementSymbol::Mg => (77, 103),
            ElementSymbol::Al => (65, 108),
            ElementSymbol::Si => (83, 105),
            ElementSymbol::P => (80, 0),
            ElementSymbol::S => (83, 0),
            ElementSymbol::Cl => (67, 108),
            ElementSymbol::Ar => (65, 114),
            ElementSymbol::K => (75, 0),
            ElementSymbol::Ca => (67, 97),
            ElementSymbol::Sc => (83, 99),
            ElementSymbol::Ti => (84, 105),
            ElementSymbol::V => (86, 0),
            ElementSymbol::Cr => (67, 114),
            ElementSymbol::Mn => (77, 110),
            ElementSymbol::Fe => (70, 101),
            ElementSymbol::Co => (67, 111),
            ElementSymbol::Ni => (78, 105),
            ElementSymbol::Cu => (67, 117),
            ElementSymbol::Zn => (90, 110),
            ElementSymbol::Ga => (71, 97),
            ElementSymbol::Ge => (71, 101),
            ElementSymbol::As => (65, 115),
            ElementSymbol::Se => (83, 101),
            ElementSymbol::Br => (66, 114),
            ElementSymbol::Kr => (75, 114),
            ElementSymbol::Rb => (82, 98),
            ElementSymbol::Sr => (83, 114),
            ElementSymbol::Y => (89, 0),
            ElementSymbol::Zr => (90, 114),
            ElementSymbol::Nb => (78, 98),
            ElementSymbol::Mo => (77, 111),
            ElementSymbol::Tc => (84, 99),
            ElementSymbol::Ru => (82, 117),
            ElementSymbol::Rh => (82, 104),
            ElementSymbol::Pd => (80, 100),
            ElementSymbol::Ag => (65, 103),
            ElementSymbol::Cd => (67, 100),
            ElementSymbol::In => (73, 110),
            ElementSymbol::Sn => (83, 110),
            ElementSymbol::Sb => (83, 98),
            ElementSymbol::Te => (84, 101),
            ElementSymbol::I => (73, 0),
            ElementSymbol::Xe => (88, 101),
            ElementSymbol::Cs => (67, 115),
            ElementSymbol::Ba => (66, 97),
            ElementSymbol::La => (76, 97),
            ElementSymbol::Ce => (67, 101),
            ElementSymbol::Pr => (80, 114),
            ElementSymbol::Nd => (78, 100),
            ElementSymbol::Pm => (80, 109),
            ElementSymbol::Sm => (83, 109),
            ElementSymbol::Eu => (69, 117),
            ElementSymbol::Gd => (71, 100),
            ElementSymbol::Tb => (84, 98),
            ElementSymbol::Dy => (68, 121),
            ElementSymbol::Ho => (72, 111),
            ElementSymbol::Er => (69, 114),
            ElementSymbol::Tm => (84, 109),
            ElementSymbol::Yb => (89, 98),
            ElementSymbol::Lu => (76, 117),
            ElementSymbol::Hf => (72, 102),
            ElementSymbol::Ta => (84, 97),
            ElementSymbol::W => (87, 0),
            ElementSymbol::Re => (82, 101),
            ElementSymbol::Os => (79, 115),
            ElementSymbol::Ir => (73, 114),
            ElementSymbol::Pt => (80, 116),
            ElementSymbol::Au => (65, 117),
            ElementSymbol::Hg => (72, 103),
            ElementSymbol::Tl => (84, 108),
            ElementSymbol::Pb => (80, 98),
            ElementSymbol::Bi => (66, 105),
            ElementSymbol::Po => (80, 111),
            ElementSymbol::At => (65, 116),
            ElementSymbol::Rn => (82, 110),
            ElementSymbol::Fr => (70, 114),
            ElementSymbol::Ra => (82, 97),
            ElementSymbol::Ac => (65, 99),
            ElementSymbol::Th => (84, 104),
            ElementSymbol::Pa => (80, 97),
            ElementSymbol::U => (85, 0),
            ElementSymbol::Np => (78, 112),
            ElementSymbol::Pu => (80, 117),
            ElementSymbol::Am => (65, 109),
            ElementSymbol::Cm => (67, 109),
            ElementSymbol::Bk => (66, 107),
            ElementSymbol::Cf => (67, 102),
            ElementSymbol::Es => (69, 115),
            ElementSymbol::Fm => (70, 109),
            ElementSymbol::Md => (77, 100),
            ElementSymbol::No => (78, 111),
            ElementSymbol::Lr => (76, 114),
            ElementSymbol::Rf => (82, 102),
            ElementSymbol::Db => (68, 98),
            ElementSymbol::Sg => (83, 103),
            ElementSymbol::Bh => (66, 104),
            ElementSymbol::Hs => (72, 115),
            ElementSymbol::Mt => (77, 116),
            ElementSymbol::Ds => (68, 115),
            ElementSymbol::Rg => (82, 103),
            ElementSymbol::Cn => (67, 110),
            ElementSymbol::Nh => (78, 104),
            ElementSymbol::Fl => (70, 108),
            ElementSymbol::Mc => (77, 99),
            ElementSymbol::Lv => (76, 118),
            ElementSymbol::Ts => (84, 115),
            ElementSymbol::Og => (79, 103),
        }
    }

    fn weight_parts(&self) -> (r: (u64, u64))
        ensures
            r.0 == self.weight().n,
            r.1 == self.weight().d,
    {
        match self {
            ElementSymbol::Unknown => (0, 10),
            ElementSymbol::H => (1008, 1000),
            ElementSymbol::He => (4002602, 1000000),
            ElementSymbol::Li => (694, 100),
            ElementSymbol::Be => (90121831, 10000000),
            ElementSymbol::B => (1081, 100),
            ElementSymbol::C => (12011, 1000),
            ElementSymbol::N => (14007, 1000),
            ElementSymbol::O => (15999, 1000),
            ElementSymbol::F => (18998403163, 1000000000),
            ElementSymbol::Ne => (201797, 10000),
            ElementSymbol::Na => (2298976928, 100000000),
            ElementSymbol::Mg => (24305, 1000),
            ElementSymbol::Al => (269815384, 10000000),
            ElementSymbol::Si => (28085, 1000),
            ElementSymbol::P => (30973761998, 1000000000),
            ElementSymbol::S => (3206, 100),
            ElementSymbol::Cl => (3545, 100),
            ElementSymbol::Ar => (3995, 100),
            ElementSymbol::K => (390983, 10000),
            ElementSymbol::Ca => (40078, 1000),
            ElementSymbol::Sc => (44955907, 1000000),
            ElementSymbol::Ti => (47867, 1000),
            ElementSymbol::V => (509415, 10000),
            ElementSymbol::Cr => (519961, 10000),
            ElementSymbol::Mn => (54938043, 1000000),
            ElementSymbol::Fe => (55845, 1000),
            ElementSymbol::Co => (58933194, 1000000),
            ElementSymbol::Ni => (586934, 10000),
            ElementSymbol::Cu => (63546, 1000),
            ElementSymbol::Zn => (6538, 100),
            ElementSymbol::Ga => (69723, 1000),
            ElementSymbol::Ge => (72630, 1000),
            ElementSymbol::As => (74921595, 1000000),
            ElementSymbol::Se => (78971, 1000),
            ElementSymbol::Br => (79904, 1000),
            ElementSymbol::Kr => (83798, 1000),
            ElementSymbol::Rb => (854678, 10000),
            ElementSymbol::Sr => (8762, 100),
            ElementSymbol::Y => (88905838, 1000000),
            ElementSymbol::Zr => (91224, 1000),
            ElementSymbol::Nb => (9290637, 100000),
            ElementSymbol::Mo => (9595, 100),
            ElementSymbol::Tc => (970, 10),
            ElementSymbol::Ru => (10107, 100),
            ElementSymbol::Rh => (10290549, 100000),
            ElementSymbol::Pd => (10642, 100),
            ElementSymbol::Ag => (1078682, 10000),
            ElementSymbol::Cd => (112414, 1000),
            ElementSymbol::In => (114818, 1000),
            ElementSymbol::Sn => (118710, 1000),
            ElementSymbol::Sb => (121760, 1000),
            ElementSymbol::Te => (12760, 100),
            ElementSymbol::I => (12690447, 100000),
            ElementSymbol::Xe => (131293, 1000),
            ElementSymbol::Cs => (13290545196, 100000000),
            ElementSymbol::Ba => (137327, 1000),
            ElementSymbol::La => (13890547, 100000),
            ElementSymbol::Ce => (140116, 1000),
            ElementSymbol::Pr => (14090766, 100000),
            ElementSymbol::Nd => (144242, 1000),
            ElementSymbol::Pm => (1450, 10),
            ElementSymbol::Sm => (15036, 100),
            ElementSymbol::Eu => (151964, 1000),
            ElementSymbol::Gd => (15725, 100),
            ElementSymbol::Tb => (158925354, 1000000),
            ElementSymbol::Dy => (162500, 1000),
            ElementSymbol::Ho => (164930329, 1000000),
            ElementSymbol::Er => (167259, 1000),
            ElementSymbol::Tm => (168934219, 1000000),
            ElementSymbol::Yb => (173045, 1000),
            ElementSymbol::Lu => (1749668, 10000),
            ElementSymbol::Hf => (178486, 1000),
            ElementSymbol::Ta => (18094788, 100000),
            ElementSymbol::W => (18384, 100),
            ElementSymbol::Re => (186207, 1000),
            ElementSymbol::Os => (19023, 100),
            ElementSymbol::Ir => (192217, 1000),
            ElementSymbol::Pt => (195084, 1000),
            ElementSymbol::Au => (196966570, 1000000),
            ElementSymbol::Hg => (200592, 1000),
            ElementSymbol::Tl => (20438, 100),
            ElementSymbol::Pb => (2072, 10),
            ElementSymbol::Bi => (20898040, 100000),
            ElementSymbol::Po => (2090, 10),
            ElementSymbol::At => (2100, 10),
            ElementSymbol::Rn => (2220, 10),
            ElementSymbol::Fr => (2230, 10),
            ElementSymbol::Ra => (2260, 10),
            ElementSymbol::Ac => (2270, 10),
            ElementSymbol::Th => (2320377, 10000),
            ElementSymbol::Pa => (23103588, 100000),
            ElementSymbol::U => (23802891, 100000),
            ElementSymbol::Np => (2370, 10),
            ElementSymbol::Pu => (2440, 10),
            ElementSymbol::Am => (2430, 10),
            ElementSymbol::Cm => (2470, 10),
            ElementSymbol::Bk => (2470, 10),
            ElementSymbol::Cf => (2510, 10),
            ElementSymbol::Es => (2520, 10),
            ElementSymbol::Fm => (2570, 10),
            ElementSymbol::Md => (2580, 10),
            ElementSymbol::No => (2590, 10),
            ElementSymbol::Lr => (2620, 10),
            ElementSymbol::Rf => (2670, 10),
            ElementSymbol::Db => (2700, 10),
            ElementSymbol::Sg => (2690, 10),
            ElementSymbol::Bh => (2700, 10),
            ElementSymbol::Hs => (2700, 10),
            ElementSymbol::Mt => (2780, 10),
            ElementSymbol::Ds => (2810, 10),
            ElementSymbol::Rg => (2810, 10),
            ElementSymbol::Cn => (2850, 10),
            ElementSymbol::Nh => (2860, 10),
            ElementSymbol::Fl => (2890, 10),
            ElementSymbol::Mc => (2890, 10),
            ElementSymbol::Lv => (2930, 10),
            ElementSymbol::Ts => (2930, 10),
            ElementSymbol::Og => (2940, 10),
        }
    }

    /// The standard atomic weight; zero for `Unknown`.
    pub fn atomic_weight(&self) -> (r: Rational)
        ensures
            r@.valid(),
            r@.eqv(self.weight()),
    {
        let (n, d) = self.weight_parts();
        Rational::fraction(n, d)
    }

    /// The element whose symbol is exactly `code`; `Unknown` when no element
    /// has that symbol.
    pub fn from_str(code: &str) -> (r: ElementSymbol)
        ensures
            r != ElementSymbol::Unknown ==> spells(code.spec_bytes(), r.code()),
            r == ElementSymbol::Unknown ==> forall|e: ElementSymbol|
                e != ElementSymbol::Unknown ==> !spells(code.spec_bytes(), #[trigger] e.code()),
    {
        Self::from_bytes(code.as_bytes())
    }

    /// The element whose symbol is exactly `text`; `Unknown` when no element
    /// has that symbol.
    pub fn from_bytes(text: &[u8]) -> (r: ElementSymbol)
        ensures
            r != ElementSymbol::Unknown ==> spells(text@, r.code()),
            r == ElementSymbol::Unknown ==> forall|e: ElementSymbol|
                e != ElementSymbol::Unknown ==> !spells(text@, #[trigger] e.code()),
    {
        let mut i: usize = 1;
        while i < ELEMENT_SLOTS
            invariant
                1 <= i <= ELEMENT_SLOTS,
                forall|j: int| 1 <= j < i ==> !spells(text@, #[trigger] element_at(j).code()),
            decreases ELEMENT_SLOTS - i,
        {
            let e = Self::from_number(i);
            let (c0, c1) = e.code_letters();
            let hit = if c1 == 0 {
                text.len() == 1 && text[0] == c0
            } else {
                text.len() == 2 && text[0] == c0 && text[1] == c1
            };
            if hit {
                return e;
            }
            i = i + 1;
        }
        proof {
            assert forall|e: ElementSymbol| e != ElementSymbol::Unknown implies !spells(
                text@,
                #[trigger] e.code(),
            ) by {
                e.lemma_index();
            }
        }
        ElementSymbol::Unknown
    }
}

} // verus!
