use vstd::prelude::*;

use crate::error::Error;
use crate::text::chars_of;

verus! {

/// A chemical element, in order of atomic number.
#[derive(Debug, Clone, Copy, PartialEq, Eq, Structural, Hash, PartialOrd, Ord)]
pub enum Symbol {
    H,
    He,
    Li,
    Be,
    B,
    C,
    N,
    O,
    F,
    Ne,
    Na,
    Mg,
    Al,
    Si,
    P,
    S,
    Cl,
    Ar,
    K,
    Ca,
    Sc,
    Ti,
    V,
    Cr,
    Mn,
    Fe,
    Co,
    Ni,
    Cu,
    Zn,
    Ga,
    Ge,
    As,
    Se,
    Br,
    Kr,
    Rb,
    Sr,
    Y,
    Zr,
    Nb,
    Mo,
    Tc,
    Ru,
    Rh,
    Pd,
    Ag,
    Cd,
    In,
    Sn,
    Sb,
    Te,
    I,
    Xe,
    Cs,
    Ba,
    La,
    Ce,
    Pr,
    Nd,
    Pm,
    Sm,
    Eu,
    Gd,
    Tb,
    Dy,
    Ho,
    Er,
    Tm,
    Yb,
    Lu,
    Hf,
    Ta,
    W,
    Re,
    Os,
    Ir,
    Pt,
    Au,
    Hg,
    Tl,
    Pb,
    Bi,
    Po,
    At,
    Rn,
    Fr,
    Ra,
    Ac,
    Th,
    Pa,
    U,
    Np,
    Pu,
    Am,
    Cm,
    Bk,
    Cf,
    Es,
    Fm,
    Md,
    No,
    Lr,
    Rf,
    Db,
    Sg,
    Bh,
    Hs,
    Mt,
    Ds,
    Rg,
    Cn,
    Nh,
    Fl,
    Mc,
    Lv,
    Ts,
    Og,
}

/// The first element, counting up from atomic number `z`, whose symbol is `t`.
pub open spec fn find_symbol(t: Seq<char>, z: nat) -> Option<Symbol>
    decreases 119 - z,
{
    if z == 0 || z > 118 {
        None
    } else if Symbol::element(z).spec_name() == t {
        Some(Symbol::element(z))
    } else {
        find_symbol(t, z + 1)
    }
}

/// The largest atomic number that has a symbol.
pub const MAX_Z: u8 = 118;

impl Symbol {
    /// Atomic number.
    pub open spec fn spec_z(self) -> nat {
        match self {
            Symbol::H => 1,
            Symbol::He => 2,
            Symbol::Li => 3,
            Symbol::Be => 4,
            Symbol::B => 5,
            Symbol::C => 6,
            Symbol::N => 7,
            Symbol::O => 8,
            Symbol::F => 9,
            Symbol::Ne => 10,
            Symbol::Na => 11,
            Symbol::Mg => 12,
            Symbol::Al => 13,
            Symbol::Si => 14,
            Symbol::P => 15,
            Symbol::S => 16,
            Symbol::Cl => 17,
            Symbol::Ar => 18,
            Symbol::K => 19,
            Symbol::Ca => 20,
            Symbol::Sc => 21,
            Symbol::Ti => 22,
            Symbol::V => 23,
            Symbol::Cr => 24,
            Symbol::Mn => 25,
            Symbol::Fe => 26,
            Symbol::Co => 27,
            Symbol::Ni => 28,
            Symbol::Cu => 29,
            Symbol::Zn => 30,
            Symbol::Ga => 31,
            Symbol::Ge => 32,
            Symbol::As => 33,
            Symbol::Se => 34,
            Symbol::Br => 35,
            Symbol::Kr => 36,
            Symbol::Rb => 37,
            Symbol::Sr => 38,
            Symbol::Y => 39,
            Symbol::Zr => 40,
            Symbol::Nb => 41,
            Symbol::Mo => 42,
            Symbol::Tc => 43,
            Symbol::Ru => 44,
            Symbol::Rh => 45,
            Symbol::Pd => 46,
            Symbol::Ag => 47,
            Symbol::Cd => 48,
            Symbol::In => 49,
            Symbol::Sn => 50,
            Symbol::Sb => 51,
            Symbol::Te => 52,
            Symbol::I => 53,
            Symbol::Xe => 54,
            Symbol::Cs => 55,
            Symbol::Ba => 56,
            Symbol::La => 57,
            Symbol::Ce => 58,
            Symbol::Pr => 59,
            Symbol::Nd => 60,
            Symbol::Pm => 61,
            Symbol::Sm => 62,
            Symbol::Eu => 63,
            Symbol::Gd => 64,
            Symbol::Tb => 65,
            Symbol::Dy => 66,
            Symbol::Ho => 67,
            Symbol::Er => 68,
            Symbol::Tm => 69,
            Symbol::Yb => 70,
            Symbol::Lu => 71,
            Symbol::Hf => 72,
            Symbol::Ta => 73,
            Symbol::W => 74,
            Symbol::Re => 75,
            Symbol::Os => 76,
            Symbol::Ir => 77,
            Symbol::Pt => 78,
            Symbol::Au => 79,
            Symbol::Hg => 80,
            Symbol::Tl => 81,
            Symbol::Pb => 82,
            Symbol::Bi => 83,
            Symbol::Po => 84,
            Symbol::At => 85,
            Symbol::Rn => 86,
            Symbol::Fr => 87,
            Symbol::Ra => 88,
            Symbol::Ac => 89,
            Symbol::Th => 90,
            Symbol::Pa => 91,
            Symbol::U => 92,
            Symbol::Np => 93,
            Symbol::Pu => 94,
            Symbol::Am => 95,
            Symbol::Cm => 96,
            Symbol::Bk => 97,
            Symbol::Cf => 98,
            Symbol::Es => 99,
            Symbol::Fm => 100,
            Symbol::Md => 101,
            Symbol::No => 102,
            Symbol::Lr => 103,
            Symbol::Rf => 104,
            Symbol::Db => 105,
            Symbol::Sg => 106,
            Symbol::Bh => 107,
            Symbol::Hs => 108,
            Symbol::Mt => 109,
            Symbol::Ds => 110,
            Symbol::Rg => 111,
            Symbol::Cn => 112,
            Symbol::Nh => 113,
            Symbol::Fl => 114,
            Symbol::Mc => 115,
            Symbol::Lv => 116,
            Symbol::Ts => 117,
            Symbol::Og => 118,
        }
    }

    /// The element's symbol as written, such as `Tc`.
    pub open spec fn spec_name(self) -> Seq<char> {
        match self {
            Symbol::H => seq!['H'],
            Symbol::He => seq!['H', 'e'],
            Symbol::Li => seq!['L', 'i'],
            Symbol::Be => seq!['B', 'e'],
            Symbol::B => seq!['B'],
            Symbol::C => seq!['C'],
            Symbol::N => seq!['N'],
            Symbol::O => seq!['O'],
            Symbol::F => seq!['F'],
            Symbol::Ne => seq!['N', 'e'],
            Symbol::Na => seq!['N', 'a'],
            Symbol::Mg => seq!['M', 'g'],
            Symbol::Al => seq!['A', 'l'],
            Symbol::Si => seq!['S', 'i'],
            Symbol::P => seq!['P'],
            Symbol::S => seq!['S'],
            Symbol::Cl => seq!['C', 'l'],
            Symbol::Ar => seq!['A', 'r'],
            Symbol::K => seq!['K'],
            Symbol::Ca => seq!['C', 'a'],
            Symbol::Sc => seq!['S', 'c'],
            Symbol::Ti => seq!['T', 'i'],
            Symbol::V => seq!['V'],
            Symbol::Cr => seq!['C', 'r'],
            Symbol::Mn => seq!['M', 'n'],
            Symbol::Fe => seq!['F', 'e'],
            Symbol::Co => seq!['C', 'o'],
            Symbol::Ni => seq!['N', 'i'],
            Symbol::Cu => seq!['C', 'u'],
            Symbol::Zn => seq!['Z', 'n'],
            Symbol::Ga => seq!['G', 'a'],
            Symbol::Ge => seq!['G', 'e'],
            Symbol::As => seq!['A', 's'],
            Symbol::Se => seq!['S', 'e'],
            Symbol::Br => seq!['B', 'r'],
            Symbol::Kr => seq!['K', 'r'],
            Symbol::Rb => seq!['R', 'b'],
            Symbol::Sr => seq!['S', 'r'],
            Symbol::Y => seq!['Y'],
            Symbol::Zr => seq!['Z', 'r'],
            Symbol::Nb => seq!['N', 'b'],
            Symbol::Mo => seq!['M', 'o'],
            Symbol::Tc => seq!['T', 'c'],
            Symbol::Ru => seq!['R', 'u'],
            Symbol::Rh => seq!['R', 'h'],
            Symbol::Pd => seq!['P', 'd'],
            Symbol::Ag => seq!['A', 'g'],
            Symbol::Cd => seq!['C', 'd'],
            Symbol::In => seq!['I', 'n'],
            Symbol::Sn => seq!['S', 'n'],
            Symbol::Sb => seq!['S', 'b'],
            Symbol::Te => seq!['T', 'e'],
            Symbol::I => seq!['I'],
            Symbol::Xe => seq!['X', 'e'],
            Symbol::Cs => seq!['C', 's'],
            Symbol::Ba => seq!['B', 'a'],
            Symbol::La => seq!['L', 'a'],
            Symbol::Ce => seq!['C', 'e'],
            Symbol::Pr => seq!['P', 'r'],
            Symbol::Nd => seq!['N', 'd'],
            Symbol::Pm => seq!['P', 'm'],
            Symbol::Sm => seq!['S', 'm'],
            Symbol::Eu => seq!['E', 'u'],
            Symbol::Gd => seq!['G', 'd'],
            Symbol::Tb => seq!['T', 'b'],
            Symbol::Dy => seq!['D', 'y'],
            Symbol::Ho => seq!['H', 'o'],
            Symbol::Er => seq!['E', 'r'],
            Symbol::Tm => seq!['T', 'm'],
            Symbol::Yb => seq!['Y', 'b'],
            Symbol::Lu => seq!['L', 'u'],
            Symbol::Hf => seq!['H', 'f'],
            Symbol::Ta => seq!['T', 'a'],
            Symbol::W => seq!['W'],
            Symbol::Re => seq!['R', 'e'],
            Symbol::Os => seq!['O', 's'],
            Symbol::Ir => seq!['I', 'r'],
            Symbol::Pt => seq!['P', 't'],
            Symbol::Au => seq!['A', 'u'],
            Symbol::Hg => seq!['H', 'g'],
            Symbol::Tl => seq!['T', 'l'],
            Symbol::Pb => seq!['P', 'b'],
            Symbol::Bi => seq!['B', 'i'],
            Symbol::Po => seq!['P', 'o'],
            Symbol::At => seq!['A', 't'],
            Symbol::Rn => seq!['R', 'n'],
            Symbol::Fr => seq!['F', 'r'],
            Symbol::Ra => seq!['R', 'a'],
            Symbol::Ac => seq!['A', 'c'],
            Symbol::Th => seq!['T', 'h'],
            Symbol::Pa => seq!['P', 'a'],
            Symbol::U => seq!['U'],
            Symbol::Np => seq!['N', 'p'],
            Symbol::Pu => seq!['P', 'u'],
            Symbol::Am => seq!['A', 'm'],
            Symbol::Cm => seq!['C', 'm'],
            Symbol::Bk => seq!['B', 'k'],
            Symbol::Cf => seq!['C', 'f'],
            Symbol::Es => seq!['E', 's'],
            Symbol::Fm => seq!['F', 'm'],
            Symbol::Md => seq!['M', 'd'],
            Symbol::No => seq!['N', 'o'],
            Symbol::Lr => seq!['L', 'r'],
            Symbol::Rf => seq!['R', 'f'],
            Symbol::Db => seq!['D', 'b'],
            Symbol::Sg => seq!['S', 'g'],
            Symbol::Bh => seq!['B', 'h'],
            Symbol::Hs => seq!['H', 's'],
            Symbol::Mt => seq!['M', 't'],
            Symbol::Ds => seq!['D', 's'],
            Symbol::Rg => seq!['R', 'g'],
            Symbol::Cn => seq!['C', 'n'],
            Symbol::Nh => seq!['N', 'h'],
            Symbol::Fl => seq!['F', 'l'],
            Symbol::Mc => seq!['M', 'c'],
            Symbol::Lv => seq!['L', 'v'],
            Symbol::Ts => seq!['T', 's'],
            Symbol::Og => seq!['O', 'g'],
        }
    }

    /// The element with atomic number `z`.
    pub open spec fn spec_from_z(z: nat) -> Option<Symbol> {
        if z == 0 || z > 118 {
            None
        } else {
            Some(Self::element(z))
        }
    }

    /// The element with atomic number `z`, for `1 <= z <= 118`.
    pub open spec fn element(z: nat) -> Symbol {
        if z == 1 {
            Symbol::H
        } else         if z == 2 {
            Symbol::He
        } else         if z == 3 {
            Symbol::Li
        } else         if z == 4 {
            Symbol::Be
        } else         if z == 5 {
            Symbol::B
        } else         if z == 6 {
            Symbol::C
        } else         if z == 7 {
            Symbol::N
        } else         if z == 8 {
            Symbol::O
        } else         if z == 9 {
            Symbol::F
        } else         if z == 10 {
            Symbol::Ne
        } else         if z == 11 {
            Symbol::Na
        } else         if z == 12 {
            Symbol::Mg
        } else         if z == 13 {
            Symbol::Al
        } else         if z == 14 {
            Symbol::Si
        } else         if z == 15 {
            Symbol::P
        } else         if z == 16 {
            Symbol::S
        } else         if z == 17 {
            Symbol::Cl
        } else         if z == 18 {
            Symbol::Ar
        } else         if z == 19 {
            Symbol::K
        } else         if z == 20 {
            Symbol::Ca
        } else         if z == 21 {
            Symbol::Sc
        } else         if z == 22 {
            Symbol::Ti
        } else         if z == 23 {
            Symbol::V
        } else         if z == 24 {
            Symbol::Cr
        } else         if z == 25 {
            Symbol::Mn
        } else         if z == 26 {
            Symbol::Fe
        } else         if z == 27 {
            Symbol::Co
        } else         if z == 28 {
            Symbol::Ni
        } else         if z == 29 {
            Symbol::Cu
        } else         if z == 30 {
            Symbol::Zn
        } else         if z == 31 {
            Symbol::Ga
        } else         if z == 32 {
            Symbol::Ge
        } else         if z == 33 {
            Symbol::As
        } else         if z == 34 {
            Symbol::Se
        } else         if z == 35 {
            Symbol::Br
        } else         if z == 36 {
            Symbol::Kr
        } else         if z == 37 {
            Symbol::Rb
        } else         if z == 38 {
            Symbol::Sr
        } else         if z == 39 {
            Symbol::Y
        } else         if z == 40 {
            Symbol::Zr
        } else         if z == 41 {
            Symbol::Nb
        } else         if z == 42 {
            Symbol::Mo
        } else         if z == 43 {
            Symbol::Tc
        } else         if z == 44 {
            Symbol::Ru
        } else         if z == 45 {
            Symbol::Rh
        } else         if z == 46 {
            Symbol::Pd
        } else         if z == 47 {
            Symbol::Ag
        } else         if z == 48 {
            Symbol::Cd
        } else         if z == 49 {
            Symbol::In
        } else         if z == 50 {
            Symbol::Sn
        } else         if z == 51 {
            Symbol::Sb
        } else         if z == 52 {
            Symbol::Te
        } else         if z == 53 {
            Symbol::I
        } else         if z == 54 {
            Symbol::Xe
        } else         if z == 55 {
            Symbol::Cs
        } else         if z == 56 {
            Symbol::Ba
        } else         if z == 57 {
            Symbol::La
        } else         if z == 58 {
            Symbol::Ce
        } else         if z == 59 {
            Symbol::Pr
        } else         if z == 60 {
            Symbol::Nd
        } else         if z == 61 {
            Symbol::Pm
        } else         if z == 62 {
            Symbol::Sm
        } else         if z == 63 {
            Symbol::Eu
        } else         if z == 64 {
            Symbol::Gd
        } else         if z == 65 {
            Symbol::Tb
        } else         if z == 66 {
            Symbol::Dy
        } else         if z == 67 {
            Symbol::Ho
        } else         if z == 68 {
            Symbol::Er
        } else         if z == 69 {
            Symbol::Tm
        } else         if z == 70 {
            Symbol::Yb
        } else         if z == 71 {
            Symbol::Lu
        } else         if z == 72 {
            Symbol::Hf
        } else         if z == 73 {
            Symbol::Ta
        } else         if z == 74 {
            Symbol::W
        } else         if z == 75 {
            Symbol::Re
        } else         if z == 76 {
            Symbol::Os
        } else         if z == 77 {
            Symbol::Ir
        } else         if z == 78 {
            Symbol::Pt
        } else         if z == 79 {
            Symbol::Au
        } else         if z == 80 {
            Symbol::Hg
        } else         if z == 81 {
            Symbol::Tl
        } else         if z == 82 {
            Symbol::Pb
        } else         if z == 83 {
            Symbol::Bi
        } else         if z == 84 {
            Symbol::Po
        } else         if z == 85 {
            Symbol::At
        } else         if z == 86 {
            Symbol::Rn
        } else         if z == 87 {
            Symbol::Fr
        } else         if z == 88 {
            Symbol::Ra
        } else         if z == 89 {
            Symbol::Ac
        } else         if z == 90 {
            Symbol::Th
        } else         if z == 91 {
            Symbol::Pa
        } else         if z == 92 {
            Symbol::U
        } else         if z == 93 {
            Symbol::Np
        } else         if z == 94 {
            Symbol::Pu
        } else         if z == 95 {
            Symbol::Am
        } else         if z == 96 {
            Symbol::Cm
        } else         if z == 97 {
            Symbol::Bk
        } else         if z == 98 {
            Symbol::Cf
        } else         if z == 99 {
            Symbol::Es
        } else         if z == 100 {
            Symbol::Fm
        } else         if z == 101 {
            Symbol::Md
        } else         if z == 102 {
            Symbol::No
        } else         if z == 103 {
            Symbol::Lr
        } else         if z == 104 {
            Symbol::Rf
        } else         if z == 105 {
            Symbol::Db
        } else         if z == 106 {
            Symbol::Sg
        } else         if z == 107 {
            Symbol::Bh
        } else         if z == 108 {
            Symbol::Hs
        } else         if z == 109 {
            Symbol::Mt
        } else         if z == 110 {
            Symbol::Ds
        } else         if z == 111 {
            Symbol::Rg
        } else         if z == 112 {
            Symbol::Cn
        } else         if z == 113 {
            Symbol::Nh
        } else         if z == 114 {
            Symbol::Fl
        } else         if z == 115 {
            Symbol::Mc
        } else         if z == 116 {
            Symbol::Lv
        } else         if z == 117 {
            Symbol::Ts
        } else {
            Symbol::Og
        }
    }

    /// Atomic number.
    pub fn z(self) -> (r: u8)
        ensures
            r as nat == self.spec_z(),
            1 <= r <= MAX_Z,
    {
        match self {
            Symbol::H => 1,
            Symbol::He => 2,
            Symbol::Li => 3,
            Symbol::Be => 4,
            Symbol::B => 5,
            Symbol::C => 6,
            Symbol::N => 7,
            Symbol::O => 8,
            Symbol::F => 9,
            Symbol::Ne => 10,
            Symbol::Na => 11,
            Symbol::Mg => 12,
            Symbol::Al => 13,
            Symbol::Si => 14,
            Symbol::P => 15,
            Symbol::S => 16,
            Symbol::Cl => 17,
            Symbol::Ar => 18,
            Symbol::K => 19,
            Symbol::Ca => 20,
            Symbol::Sc => 21,
            Symbol::Ti => 22,
            Symbol::V => 23,
            Symbol::Cr => 24,
            Symbol::Mn => 25,
            Symbol::Fe => 26,
            Symbol::Co => 27,
            Symbol::Ni => 28,
            Symbol::Cu => 29,
            Symbol::Zn => 30,
            Symbol::Ga => 31,
            Symbol::Ge => 32,
            Symbol::As => 33,
            Symbol::Se => 34,
            Symbol::Br => 35,
            Symbol::Kr => 36,
            Symbol::Rb => 37,
            Symbol::Sr => 38,
            Symbol::Y => 39,
            Symbol::Zr => 40,
            Symbol::Nb => 41,
            Symbol::Mo => 42,
            Symbol::Tc => 43,
            Symbol::Ru => 44,
            Symbol::Rh => 45,
            Symbol::Pd => 46,
            Symbol::Ag => 47,
            Symbol::Cd => 48,
            Symbol::In => 49,
            Symbol::Sn => 50,
            Symbol::Sb => 51,
            Symbol::Te => 52,
            Symbol::I => 53,
            Symbol::Xe => 54,
            Symbol::Cs => 55,
            Symbol::Ba => 56,
            Symbol::La => 57,
            Symbol::Ce => 58,
            Symbol::Pr => 59,
            Symbol::Nd => 60,
            Symbol::Pm => 61,
            Symbol::Sm => 62,
            Symbol::Eu => 63,
            Symbol::Gd => 64,
            Symbol::Tb => 65,
            Symbol::Dy => 66,
            Symbol::Ho => 67,
            Symbol::Er => 68,
            Symbol::Tm => 69,
            Symbol::Yb => 70,
            Symbol::Lu => 71,
            Symbol::Hf => 72,
            Symbol::Ta => 73,
            Symbol::W => 74,
            Symbol::Re => 75,
            Symbol::Os => 76,
            Symbol::Ir => 77,
            Symbol::Pt => 78,
            Symbol::Au => 79,
            Symbol::Hg => 80,
            Symbol::Tl => 81,
            Symbol::Pb => 82,
            Symbol::Bi => 83,
            Symbol::Po => 84,
            Symbol::At => 85,
            Symbol::Rn => 86,
            Symbol::Fr => 87,
            Symbol::Ra => 88,
            Symbol::Ac => 89,
            Symbol::Th => 90,
            Symbol::Pa => 91,
            Symbol::U => 92,
            Symbol::Np => 93,
            Symbol::Pu => 94,
            Symbol::Am => 95,
            Symbol::Cm => 96,
            Symbol::Bk => 97,
            Symbol::Cf => 98,
            Symbol::Es => 99,
            Symbol::Fm => 100,
            Symbol::Md => 101,
            Symbol::No => 102,
            Symbol::Lr => 103,
            Symbol::Rf => 104,
            Symbol::Db => 105,
            Symbol::Sg => 106,
            Symbol::Bh => 107,
            Symbol::Hs => 108,
            Symbol::Mt => 109,
            Symbol::Ds => 110,
            Symbol::Rg => 111,
            Symbol::Cn => 112,
            Symbol::Nh => 113,
            Symbol::Fl => 114,
            Symbol::Mc => 115,
            Symbol::Lv => 116,
            Symbol::Ts => 117,
            Symbol::Og => 118,
        }
    }

    /// The element with atomic number `z`, if there is one.
    pub fn from_z(z: u8) -> (r: Option<Symbol>)
        ensures
            r == Self::spec_from_z(z as nat),
    {
        match z {
            1 => Some(Symbol::H),
            2 => Some(Symbol::He),
            3 => Some(Symbol::Li),
            4 => Some(Symbol::Be),
            5 => Some(Symbol::B),
            6 => Some(Symbol::C),
            7 => Some(Symbol::N),
            8 => Some(Symbol::O),
            9 => Some(Symbol::F),
            10 => Some(Symbol::Ne),
            11 => Some(Symbol::Na),
            12 => Some(Symbol::Mg),
            13 => Some(Symbol::Al),
            14 => Some(Symbol::Si),
            15 => Some(Symbol::P),
            16 => Some(Symbol::S),
            17 => Some(Symbol::Cl),
            18 => Some(Symbol::Ar),
            19 => Some(Symbol::K),
            20 => Some(Symbol::Ca),
            21 => Some(Symbol::Sc),
            22 => Some(Symbol::Ti),
            23 => Some(Symbol::V),
            24 => Some(Symbol::Cr),
            25 => Some(Symbol::Mn),
            26 => Some(Symbol::Fe),
            27 => Some(Symbol::Co),
            28 => Some(Symbol::Ni),
            29 => Some(Symbol::Cu),
            30 => Some(Symbol::Zn),
            31 => Some(Symbol::Ga),
            32 => Some(Symbol::Ge),
            33 => Some(Symbol::As),
            34 => Some(Symbol::Se),
            35 => Some(Symbol::Br),
            36 => Some(Symbol::Kr),
            37 => Some(Symbol::Rb),
            38 => Some(Symbol::Sr),
            39 => Some(Symbol::Y),
            40 => Some(Symbol::Zr),
            41 => Some(Symbol::Nb),
            42 => Some(Symbol::Mo),
            43 => Some(Symbol::Tc),
            44 => Some(Symbol::Ru),
            45 => Some(Symbol::Rh),
            46 => Some(Symbol::Pd),
            47 => Some(Symbol::Ag),
            48 => Some(Symbol::Cd),
            49 => Some(Symbol::In),
            50 => Some(Symbol::Sn),
            51 => Some(Symbol::Sb),
            52 => Some(Symbol::Te),
            53 => Some(Symbol::I),
            54 => Some(Symbol::Xe),
            55 => Some(Symbol::Cs),
            56 => Some(Symbol::Ba),
            57 => Some(Symbol::La),
            58 => Some(Symbol::Ce),
            59 => Some(Symbol::Pr),
            60 => Some(Symbol::Nd),
            61 => Some(Symbol::Pm),
            62 => Some(Symbol::Sm),
            63 => Some(Symbol::Eu),
            64 => Some(Symbol::Gd),
            65 => Some(Symbol::Tb),
            66 => Some(Symbol::Dy),
            67 => Some(Symbol::Ho),
            68 => Some(Symbol::Er),
            69 => Some(Symbol::Tm),
            70 => Some(Symbol::Yb),
            71 => Some(Symbol::Lu),
            72 => Some(Symbol::Hf),
            73 => Some(Symbol::Ta),
            74 => Some(Symbol::W),
            75 => Some(Symbol::Re),
            76 => Some(Symbol::Os),
            77 => Some(Symbol::Ir),
            78 => Some(Symbol::Pt),
            79 => Some(Symbol::Au),
            80 => Some(Symbol::Hg),
            81 => Some(Symbol::Tl),
            82 => Some(Symbol::Pb),
            83 => Some(Symbol::Bi),
            84 => Some(Symbol::Po),
            85 => Some(Symbol::At),
            86 => Some(Symbol::Rn),
            87 => Some(Symbol::Fr),
            88 => Some(Symbol::Ra),
            89 => Some(Symbol::Ac),
            90 => Some(Symbol::Th),
            91 => Some(Symbol::Pa),
            92 => Some(Symbol::U),
            93 => Some(Symbol::Np),
            94 => Some(Symbol::Pu),
            95 => Some(Symbol::Am),
            96 => Some(Symbol::Cm),
            97 => Some(Symbol::Bk),
            98 => Some(Symbol::Cf),
            99 => Some(Symbol::Es),
            100 => Some(Symbol::Fm),
            101 => Some(Symbol::Md),
            102 => Some(Symbol::No),
            103 => Some(Symbol::Lr),
            104 => Some(Symbol::Rf),
            105 => Some(Symbol::Db),
            106 => Some(Symbol::Sg),
            107 => Some(Symbol::Bh),
            108 => Some(Symbol::Hs),
            109 => Some(Symbol::Mt),
            110 => Some(Symbol::Ds),
            111 => Some(Symbol::Rg),
            112 => Some(Symbol::Cn),
            113 => Some(Symbol::Nh),
            114 => Some(Symbol::Fl),
            115 => Some(Symbol::Mc),
            116 => Some(Symbol::Lv),
            117 => Some(Symbol::Ts),
            118 => Some(Symbol::Og),
            _ => None,
        }
    }

    /// The element's symbol as written.
    pub fn name(self) -> (r: &'static str)
        ensures
            r@ == self.spec_name(),
    {
        match self {
            Symbol::H => {
                proof {
                    reveal_strlit("H");
                }
                "H"
            },
            Symbol::He => {
                proof {
                    reveal_strlit("He");
                }
                "He"
            },
            Symbol::Li => {
                proof {
                    reveal_strlit("Li");
                }
                "Li"
            },
            Symbol::Be => {
                proof {
                    reveal_strlit("Be");
                }
                "Be"
            },
            Symbol::B => {
                proof {
                    reveal_strlit("B");
                }
                "B"
            },
            Symbol::C => {
                proof {
                    reveal_strlit("C");
                }
                "C"
            },
            Symbol::N => {
                proof {
                    reveal_strlit("N");
                }
                "N"
            },
            Symbol::O => {
                proof {
                    reveal_strlit("O");
                }
                "O"
            },
            Symbol::F => {
                proof {
                    reveal_strlit("F");
                }
                "F"
            },
            Symbol::Ne => {
                proof {
                    reveal_strlit("Ne");
                }
                "Ne"
            },
            Symbol::Na => {
                proof {
                    reveal_strlit("Na");
                }
                "Na"
            },
            Symbol::Mg => {
                proof {
                    reveal_strlit("Mg");
                }
                "Mg"
            },
            Symbol::Al => {
                proof {
                    reveal_strlit("Al");
                }
                "Al"
            },
            Symbol::Si => {
                proof {
                    reveal_strlit("Si");
                }
                "Si"
            },
            Symbol::P => {
                proof {
                    reveal_strlit("P");
                }
                "P"
            },
            Symbol::S => {
                proof {
                    reveal_strlit("S");
                }
                "S"
            },
            Symbol::Cl => {
                proof {
                    reveal_strlit("Cl");
                }
                "Cl"
            },
            Symbol::Ar => {
                proof {
                    reveal_strlit("Ar");
                }
                "Ar"
            },
            Symbol::K => {
                proof {
                    reveal_strlit("K");
                }
                "K"
            },
            Symbol::Ca => {
                proof {
                    reveal_strlit("Ca");
                }
                "Ca"
            },
            Symbol::Sc => {
                proof {
                    reveal_strlit("Sc");
                }
                "Sc"
            },
            Symbol::Ti => {
                proof {
                    reveal_strlit("Ti");
                }
                "Ti"
            },
            Symbol::V => {
                proof {
                    reveal_strlit("V");
                }
                "V"
            },
            Symbol::Cr => {
                proof {
                    reveal_strlit("Cr");
                }
                "Cr"
            },
            Symbol::Mn => {
                proof {
                    reveal_strlit("Mn");
                }
                "Mn"
            },
            Symbol::Fe => {
                proof {
                    reveal_strlit("Fe");
                }
                "Fe"
            },
            Symbol::Co => {
                proof {
                    reveal_strlit("Co");
                }
                "Co"
            },
            Symbol::Ni => {
                proof {
                    reveal_strlit("Ni");
                }
                "Ni"
            },
            Symbol::Cu => {
                proof {
                    reveal_strlit("Cu");
                }
                "Cu"
            },
            Symbol::Zn => {
                proof {
                    reveal_strlit("Zn");
                }
                "Zn"
            },
            Symbol::Ga => {
                proof {
                    reveal_strlit("Ga");
                }
                "Ga"
            },
            Symbol::Ge => {
                proof {
                    reveal_strlit("Ge");
                }
                "Ge"
            },
            Symbol::As => {
                proof {
                    reveal_strlit("As");
                }
                "As"
            },
            Symbol::Se => {
                proof {
                    reveal_strlit("Se");
                }
                "Se"
            },
            Symbol::Br => {
                proof {
                    reveal_strlit("Br");
                }
                "Br"
            },
            Symbol::Kr => {
                proof {
                    reveal_strlit("Kr");
                }
                "Kr"
            },
            Symbol::Rb => {
                proof {
                    reveal_strlit("Rb");
                }
                "Rb"
            },
            Symbol::Sr => {
                proof {
                    reveal_strlit("Sr");
                }
                "Sr"
            },
            Symbol::Y => {
                proof {
                    reveal_strlit("Y");
                }
                "Y"
            },
            Symbol::Zr => {
                proof {
                    reveal_strlit("Zr");
                }
                "Zr"
            },
            Symbol::Nb => {
                proof {
                    reveal_strlit("Nb");
                }
                "Nb"
            },
            Symbol::Mo => {
                proof {
                    reveal_strlit("Mo");
                }
                "Mo"
            },
            Symbol::Tc => {
                proof {
                    reveal_strlit("Tc");
                }
                "Tc"
            },
            Symbol::Ru => {
                proof {
                    reveal_strlit("Ru");
                }
                "Ru"
            },
            Symbol::Rh => {
                proof {
                    reveal_strlit("Rh");
                }
                "Rh"
            },
            Symbol::Pd => {
                proof {
                    reveal_strlit("Pd");
                }
                "Pd"
            },
            Symbol::Ag => {
                proof {
                    reveal_strlit("Ag");
                }
                "Ag"
            },
            Symbol::Cd => {
                proof {
                    reveal_strlit("Cd");
                }
                "Cd"
            },
            Symbol::In => {
                proof {
                    reveal_strlit("In");
                }
                "In"
            },
            Symbol::Sn => {
                proof {
                    reveal_strlit("Sn");
                }
                "Sn"
            },
            Symbol::Sb => {
                proof {
                    reveal_strlit("Sb");
                }
                "Sb"
            },
            Symbol::Te => {
                proof {
                    reveal_strlit("Te");
                }
                "Te"
            },
            Symbol::I => {
                proof {
                    reveal_strlit("I");
                }
                "I"
            },
            Symbol::Xe => {
                proof {
                    reveal_strlit("Xe");
                }
                "Xe"
            },
            Symbol::Cs => {
                proof {
                    reveal_strlit("Cs");
                }
                "Cs"
            },
            Symbol::Ba => {
                proof {
                    reveal_strlit("Ba");
                }
                "Ba"
            },
            Symbol::La => {
                proof {
                    reveal_strlit("La");
                }
                "La"
            },
            Symbol::Ce => {
                proof {
                    reveal_strlit("Ce");
                }
                "Ce"
            },
            Symbol::Pr => {
                proof {
                    reveal_strlit("Pr");
                }
                "Pr"
            },
            Symbol::Nd => {
                proof {
                    reveal_strlit("Nd");
                }
                "Nd"
            },
            Symbol::Pm => {
                proof {
                    reveal_strlit("Pm");
                }
                "Pm"
            },
            Symbol::Sm => {
                proof {
                    reveal_strlit("Sm");
                }
                "Sm"
            },
            Symbol::Eu => {
                proof {
                    reveal_strlit("Eu");
                }
                "Eu"
            },
            Symbol::Gd => {
                proof {
                    reveal_strlit("Gd");
                }
                "Gd"
            },
            Symbol::Tb => {
                proof {
                    reveal_strlit("Tb");
                }
                "Tb"
            },
            Symbol::Dy => {
                proof {
                    reveal_strlit("Dy");
                }
                "Dy"
            },
            Symbol::Ho => {
                proof {
                    reveal_strlit("Ho");
                }
                "Ho"
            },
            Symbol::Er => {
                proof {
                    reveal_strlit("Er");
                }
                "Er"
            },
            Symbol::Tm => {
                proof {
                    reveal_strlit("Tm");
                }
                "Tm"
            },
            Symbol::Yb => {
                proof {
                    reveal_strlit("Yb");
                }
                "Yb"
            },
            Symbol::Lu => {
                proof {
                    reveal_strlit("Lu");
                }
                "Lu"
            },
            Symbol::Hf => {
                proof {
                    reveal_strlit("Hf");
                }
                "Hf"
            },
            Symbol::Ta => {
                proof {
                    reveal_strlit("Ta");
                }
                "Ta"
            },
            Symbol::W => {
                proof {
                    reveal_strlit("W");
                }
                "W"
            },
            Symbol::Re => {
                proof {
                    reveal_strlit("Re");
                }
                "Re"
            },
            Symbol::Os => {
                proof {
                    reveal_strlit("Os");
                }
                "Os"
            },
            Symbol::Ir => {
                proof {
                    reveal_strlit("Ir");
                }
                "Ir"
            },
            Symbol::Pt => {
                proof {
                    reveal_strlit("Pt");
                }
                "Pt"
            },
            Symbol::Au => {
                proof {
                    reveal_strlit("Au");
                }
                "Au"
            },
            Symbol::Hg => {
                proof {
                    reveal_strlit("Hg");
                }
                "Hg"
            },
            Symbol::Tl => {
                proof {
                    reveal_strlit("Tl");
                }
                "Tl"
            },
            Symbol::Pb => {
                proof {
                    reveal_strlit("Pb");
                }
                "Pb"
            },
            Symbol::Bi => {
                proof {
                    reveal_strlit("Bi");
                }
                "Bi"
            },
            Symbol::Po => {
                proof {
                    reveal_strlit("Po");
                }
                "Po"
            },
            Symbol::At => {
                proof {
                    reveal_strlit("At");
                }
                "At"
            },
            Symbol::Rn => {
                proof {
                    reveal_strlit("Rn");
                }
                "Rn"
            },
            Symbol::Fr => {
                proof {
                    reveal_strlit("Fr");
                }
                "Fr"
            },
            Symbol::Ra => {
                proof {
                    reveal_strlit("Ra");
                }
                "Ra"
            },
            Symbol::Ac => {
                proof {
                    reveal_strlit("Ac");
                }
                "Ac"
            },
            Symbol::Th => {
                proof {
                    reveal_strlit("Th");
                }
                "Th"
            },
            Symbol::Pa => {
                proof {
                    reveal_strlit("Pa");
                }
                "Pa"
            },
            Symbol::U => {
                proof {
                    reveal_strlit("U");
                }
                "U"
            },
            Symbol::Np => {
                proof {
                    reveal_strlit("Np");
                }
                "Np"
            },
            Symbol::Pu => {
                proof {
                    reveal_strlit("Pu");
                }
                "Pu"
            },
            Symbol::Am => {
                proof {
                    reveal_strlit("Am");
                }
                "Am"
            },
            Symbol::Cm => {
                proof {
                    reveal_strlit("Cm");
                }
                "Cm"
            },
            Symbol::Bk => {
                proof {
                    reveal_strlit("Bk");
                }
                "Bk"
            },
            Symbol::Cf => {
                proof {
                    reveal_strlit("Cf");
                }
                "Cf"
            },
            Symbol::Es => {
                proof {
                    reveal_strlit("Es");
                }
                "Es"
            },
            Symbol::Fm => {
                proof {
                    reveal_strlit("Fm");
                }
                "Fm"
            },
            Symbol::Md => {
                proof {
                    reveal_strlit("Md");
                }
                "Md"
            },
            Symbol::No => {
                proof {
                    reveal_strlit("No");
                }
                "No"
            },
            Symbol::Lr => {
                proof {
                    reveal_strlit("Lr");
                }
                "Lr"
            },
            Symbol::Rf => {
                proof {
                    reveal_strlit("Rf");
                }
                "Rf"
            },
            Symbol::Db => {
                proof {
                    reveal_strlit("Db");
                }
                "Db"
            },
            Symbol::Sg => {
                proof {
                    reveal_strlit("Sg");
                }
                "Sg"
            },
            Symbol::Bh => {
                proof {
                    reveal_strlit("Bh");
                }
                "Bh"
            },
            Symbol::Hs => {
                proof {
                    reveal_strlit("Hs");
                }
                "Hs"
            },
            Symbol::Mt => {
                proof {
                    reveal_strlit("Mt");
                }
                "Mt"
            },
            Symbol::Ds => {
                proof {
                    reveal_strlit("Ds");
                }
                "Ds"
            },
            Symbol::Rg => {
                proof {
                    reveal_strlit("Rg");
                }
                "Rg"
            },
            Symbol::Cn => {
                proof {
                    reveal_strlit("Cn");
                }
                "Cn"
            },
            Symbol::Nh => {
                proof {
                    reveal_strlit("Nh");
                }
                "Nh"
            },
            Symbol::Fl => {
                proof {
                    reveal_strlit("Fl");
                }
                "Fl"
            },
            Symbol::Mc => {
                proof {
                    reveal_strlit("Mc");
                }
                "Mc"
            },
            Symbol::Lv => {
                proof {
                    reveal_strlit("Lv");
                }
                "Lv"
            },
            Symbol::Ts => {
                proof {
                    reveal_strlit("Ts");
                }
                "Ts"
            },
            Symbol::Og => {
                proof {
                    reveal_strlit("Og");
                }
                "Og"
            },
        }
    }

    /// Every element's atomic number leads back to it.
    pub proof fn lemma_z_round_trip(self)
        ensures
            1 <= self.spec_z() <= 118,
            Self::spec_from_z(self.spec_z()) == Some(self),
    {
    }

    /// Reads an element symbol; the text must be the symbol exactly.
    pub fn parse(s: &str) -> (r: Option<Symbol>)
        ensures
            r == find_symbol(s@, 1),
            match r {
                Some(sym) => sym.spec_name() == s@,
                None => forall|sym: Symbol| sym.spec_name() != s@,
            },
    {
        let cs = chars_of(s);
        assert(cs@.subrange(0, cs@.len() as int) =~= s@);
        Self::parse_chars(&cs, 0, cs.len())
    }

    /// Reads the element symbol that `cs[start..end]` holds exactly.
    pub fn parse_chars(cs: &Vec<char>, start: usize, end: usize) -> (r: Option<Symbol>)
        requires
            start <= end <= cs@.len(),
        ensures
            r == find_symbol(cs@.subrange(start as int, end as int), 1),
            match r {
                Some(sym) => sym.spec_name() == cs@.subrange(start as int, end as int),
                None => forall|sym: Symbol|
                    sym.spec_name() != cs@.subrange(start as int, end as int),
            },
    {
        let ghost t = cs@.subrange(start as int, end as int);
        let mut z: u8 = 1;
        while z <= MAX_Z
            invariant
                1 <= z <= MAX_Z + 1,
                start <= end <= cs@.len(),
                t == cs@.subrange(start as int, end as int),
                find_symbol(t, 1) == find_symbol(t, z as nat),
                forall|k: nat|
                    1 <= k < z ==> (#[trigger] Self::spec_from_z(k)).unwrap().spec_name() != t,
            decreases MAX_Z + 1 - z,
        {
            let sym = Self::from_z(z).unwrap();
            let name = sym.name();
            let n = name.unicode_len();
            if n == end - start {
                let mut i: usize = 0;
                let mut same = true;
                let ghost mut bad: int = 0;
                while i < n
                    invariant
                        i <= n,
                        n == name@.len(),
                        n == end - start,
                        start <= end <= cs@.len(),
                        t == cs@.subrange(start as int, end as int),
                        same ==> forall|j: int| 0 <= j < i ==> name@[j] == t[j],
                        !same ==> 0 <= bad < n && name@[bad] != t[bad],
                    decreases n - i,
                {
                    if name.get_char(i) != cs[start + i] {
                        same = false;
                        proof {
                            bad = i as int;
                        }
                    }
                    i = i + 1;
                }
                if same {
                    assert(name@ =~= t);
                }
                if same {
                    return Some(sym);
                }
            }
            z = z + 1;
        }
        proof {
            assert forall|sym: Symbol| sym.spec_name() != t by {
                sym.lemma_z_round_trip();
                assert(Self::spec_from_z(sym.spec_z()).unwrap() == sym);
            }
        }
        None
    }
}

impl std::str::FromStr for Symbol {
    type Err = Error;

    fn from_str(s: &str) -> Result<Symbol, Error> {
        match Symbol::parse(s) {
            Some(sym) => Ok(sym),
            None => Err(Error::InvalidSymbol(s.to_owned())),
        }
    }
}

} // verus!
