use vstd::prelude::*;

use crate::error::Error;
use crate::symbol::{find_symbol, Symbol};
use crate::text::{
    append_decimal, chars_of, decimal, decimal_value, digits_value, in_class, is_in_class,
    is_int_literal, run_end, run_len, CharClass,
};

verus! {

/// The excitation state of a metastable nuclide.
#[derive(Debug, Clone, Copy, PartialEq, Eq, Structural, Hash, PartialOrd, Ord)]
pub enum MetastableState {
    M,
    N,
}

/// The state that the text `t` names: `m` or `n`.
pub open spec fn parse_state(t: Seq<char>) -> Option<MetastableState> {
    if t == seq!['m'] {
        Some(MetastableState::M)
    } else if t == seq!['n'] {
        Some(MetastableState::N)
    } else {
        None
    }
}

impl MetastableState {
    /// The digit that stands for the state in a nuclide id.
    pub open spec fn spec_code(self) -> nat {
        match self {
            MetastableState::M => 1,
            MetastableState::N => 2,
        }
    }

    pub open spec fn spec_from_code(c: nat) -> Option<MetastableState> {
        if c == 1 {
            Some(MetastableState::M)
        } else if c == 2 {
            Some(MetastableState::N)
        } else {
            None
        }
    }

    pub open spec fn spec_name(self) -> Seq<char> {
        match self {
            MetastableState::M => seq!['m'],
            MetastableState::N => seq!['n'],
        }
    }

    pub fn code(self) -> (r: u32)
        ensures
            r as nat == self.spec_code(),
    {
        match self {
            MetastableState::M => 1,
            MetastableState::N => 2,
        }
    }

    pub fn from_code(c: u32) -> (r: Option<MetastableState>)
        ensures
            r == Self::spec_from_code(c as nat),
    {
        if c == 1 {
            Some(MetastableState::M)
        } else if c == 2 {
            Some(MetastableState::N)
        } else {
            None
        }
    }

    pub fn name(self) -> (r: &'static str)
        ensures
            r@ == self.spec_name(),
    {
        proof {
            reveal_strlit("m");
            reveal_strlit("n");
        }
        match self {
            MetastableState::M => "m",
            MetastableState::N => "n",
        }
    }

    pub fn parse(s: &str) -> (r: Option<MetastableState>)
        ensures
            r == parse_state(s@),
    {
        let cs = chars_of(s);
        let n = cs.len();
        assert(cs@.subrange(0, n as int) =~= cs@);
        state_at(&cs, 0, n)
    }
}

/// The state that `cs[i..j]` names.
fn state_at(cs: &Vec<char>, i: usize, j: usize) -> (r: Option<MetastableState>)
    requires
        i <= j <= cs@.len(),
    ensures
        r == parse_state(cs@.subrange(i as int, j as int)),
{
    let ghost t = cs@.subrange(i as int, j as int);
    if j - i == 1 && cs[i] == 'm' {
        assert(t =~= seq!['m']);
        Some(MetastableState::M)
    } else if j - i == 1 && cs[i] == 'n' {
        assert(t =~= seq!['n']);
        Some(MetastableState::N)
    } else {
        assert(t != seq!['m'] && t != seq!['n']) by {
            if t.len() == 1 {
                assert(t[0] == cs@[i as int]);
            }
        }
        None
    }
}

/// A nuclide: an isotope of an element, possibly metastable, or the lumped products of
/// spontaneous fission.
///
/// The id packs the atomic number, the mass number and the state as
/// `z * 10_000_000 + a * 10_000 + state`.
#[derive(Debug, Clone, Copy, PartialEq, Eq, Structural, Hash, PartialOrd, Ord)]
pub enum Nuclide {
    /// Nuclide with canonical id
    WithId(u32),
    /// Spontaneous fission products
    FissionProducts,
}

pub const Z_UNIT: u32 = 10_000_000;

pub const A_UNIT: u32 = 10_000;

/// The digit of the state in an id, or 0 where the text names no state.
pub open spec fn state_code_of(t: Seq<char>) -> nat {
    match parse_state(t) {
        Some(st) => st.spec_code(),
        None => 0,
    }
}

/// What a nuclide's name reads as: `SF` for fission products, an id written in decimal,
/// or an element symbol, any number of dashes, a mass number and trailing letters, which
/// give the state where they are `m` or `n`.
pub open spec fn parse_nuclide(s: Seq<char>) -> Option<Nuclide> {
    if s == seq!['S', 'F'] {
        Some(Nuclide::FissionProducts)
    } else if s.len() >= 1 && in_class(s[0], CharClass::Digit) {
        if is_int_literal(s) && digits_value(s) <= u32::MAX {
            Some(Nuclide::WithId(digits_value(s) as u32))
        } else {
            None
        }
    } else if s.len() >= 1 && in_class(s[0], CharClass::Upper) {
        let k = 1 + run_len(s, 1, CharClass::Lower);
        match find_symbol(s.subrange(0, k as int), 1) {
            None => None,
            Some(sym) => {
                let j = k + run_len(s, k, CharClass::Dash);
                let m = run_len(s, j, CharClass::Digit);
                let mass = s.subrange(j as int, (j + m) as int);
                let rest = s.subrange((j + m) as int, s.len() as int);
                let id = sym.spec_z() * (Z_UNIT as nat) + digits_value(mass) * (A_UNIT as nat)
                    + state_code_of(rest);
                if is_int_literal(mass) && run_len(s, j + m, CharClass::Alpha) == rest.len() && id
                    <= u32::MAX {
                    Some(Nuclide::WithId(id as u32))
                } else {
                    None
                }
            },
        }
    } else {
        None
    }
}

impl Nuclide {
    pub open spec fn spec_id(self) -> Option<u32> {
        match self {
            Nuclide::WithId(id) => Some(id),
            Nuclide::FissionProducts => None,
        }
    }

    pub open spec fn spec_z(self) -> Option<u32> {
        match self {
            Nuclide::WithId(id) => Some(id / Z_UNIT),
            Nuclide::FissionProducts => None,
        }
    }

    pub open spec fn spec_a(self) -> Option<u32> {
        match self {
            Nuclide::WithId(id) => Some((id / A_UNIT) % 1000),
            Nuclide::FissionProducts => None,
        }
    }

    pub open spec fn spec_state(self) -> Option<MetastableState> {
        match self {
            Nuclide::WithId(id) => MetastableState::spec_from_code((id % 10) as nat),
            Nuclide::FissionProducts => None,
        }
    }

    /// The canonical id; fission products have none.
    pub fn id(&self) -> (r: Option<u32>)
        ensures
            r == self.spec_id(),
    {
        match self {
            Nuclide::WithId(id) => Some(*id),
            Nuclide::FissionProducts => None,
        }
    }

    /// Atomic number.
    pub fn z(&self) -> (r: Option<u32>)
        ensures
            r == self.spec_z(),
    {
        match self {
            Nuclide::WithId(id) => Some(*id / Z_UNIT),
            Nuclide::FissionProducts => None,
        }
    }

    /// Mass number.
    pub fn a(&self) -> (r: Option<u32>)
        ensures
            r == self.spec_a(),
    {
        match self {
            Nuclide::WithId(id) => Some((*id / A_UNIT) % 1000),
            Nuclide::FissionProducts => None,
        }
    }

    /// Metastable state, where the id's last digit names one.
    pub fn state(&self) -> (r: Option<MetastableState>)
        ensures
            r == self.spec_state(),
    {
        match self {
            Nuclide::WithId(id) => MetastableState::from_code(*id % 10),
            Nuclide::FissionProducts => None,
        }
    }

    /// The nuclide as an integer key: its id, or a value above every id for the fission
    /// products. Distinct nuclides have distinct keys.
    pub open spec fn spec_key(self) -> u64 {
        match self {
            Nuclide::WithId(id) => id as u64,
            Nuclide::FissionProducts => 0x1_0000_0000,
        }
    }

    pub fn key(&self) -> (r: u64)
        ensures
            r == self.spec_key(),
    {
        match self {
            Nuclide::WithId(id) => *id as u64,
            Nuclide::FissionProducts => 0x1_0000_0000,
        }
    }

    pub proof fn lemma_key_injective(a: Nuclide, b: Nuclide)
        ensures
            a.spec_key() == b.spec_key() ==> a == b,
    {
    }

    /// Whether the nuclide can be written as a name: its atomic number has a symbol.
    pub open spec fn is_nameable(self) -> bool {
        match self {
            Nuclide::WithId(id) => Symbol::spec_from_z((id / Z_UNIT) as nat) is Some,
            Nuclide::FissionProducts => true,
        }
    }

    /// The name: symbol, dash, mass number and state letter, as in `Tc-99m`; fission
    /// products read `various`.
    pub open spec fn spec_to_string(self) -> Seq<char> {
        match self {
            Nuclide::WithId(id) => Symbol::element((id / Z_UNIT) as nat).spec_name() + seq!['-']
                + decimal(((id / A_UNIT) % 1000) as nat) + match MetastableState::spec_from_code(
                (id % 10) as nat,
            ) {
                Some(st) => st.spec_name(),
                None => seq![],
            },
            Nuclide::FissionProducts => seq!['v', 'a', 'r', 'i', 'o', 'u', 's'],
        }
    }

    /// Reads a nuclide from its name or its id, as `parse_nuclide` describes.
    pub fn parse(s: &str) -> (r: Option<Nuclide>)
        ensures
            r == parse_nuclide(s@),
    {
        let cs = chars_of(s);
        let n = cs.len();
        if n == 2 && cs[0] == 'S' && cs[1] == 'F' {
            assert(s@ =~= seq!['S', 'F']);
            return Some(Nuclide::FissionProducts);
        }
        assert(s@ != seq!['S', 'F']) by {
            if s@.len() == 2 {
                assert(s@[0] == cs@[0] && s@[1] == cs@[1]);
            }
        }
        assert(cs@.subrange(0, n as int) =~= cs@);
        if n >= 1 && is_in_class(cs[0], CharClass::Digit) {
            let end = run_end(&cs, 0, CharClass::Digit);
            if end != n || (n > 1 && cs[0] == '0') {
                return None;
            }
            match decimal_value(&cs, 0, n) {
                Some(v) => Some(Nuclide::WithId(v)),
                None => None,
            }
        } else if n >= 1 && is_in_class(cs[0], CharClass::Upper) {
            let k = run_end(&cs, 1, CharClass::Lower);
            match Symbol::parse_chars(&cs, 0, k) {
                None => None,
                Some(sym) => {
                    let j = run_end(&cs, k, CharClass::Dash);
                    let e = run_end(&cs, j, CharClass::Digit);
                    let ghost mass = cs@.subrange(j as int, e as int);
                    let ghost rest = cs@.subrange(e as int, n as int);
                    if e == j || (e - j > 1 && cs[j] == '0') {
                        assert(!is_int_literal(mass)) by {
                            if e > j {
                                assert(mass[0] == cs@[j as int]);
                            }
                        }
                        return None;
                    }
                    assert(is_int_literal(mass)) by {
                        assert(mass[0] == cs@[j as int]);
                        assert forall|q: int| 0 <= q < mass.len() implies in_class(
                            #[trigger] mass[q],
                            CharClass::Digit,
                        ) by {
                            assert(mass[q] == cs@[j + q]);
                        }
                    }
                    let rest_end = run_end(&cs, e, CharClass::Alpha);
                    if rest_end != n {
                        return None;
                    }
                    let mass_value = match decimal_value(&cs, j, e) {
                        Some(v) => v,
                        None => {
                            return None;
                        },
                    };
                    let code: u32 = match state_at(&cs, e, n) {
                        Some(st) => st.code(),
                        None => 0,
                    };
                    let id: u64 = sym.z() as u64 * Z_UNIT as u64 + mass_value as u64 * A_UNIT as u64
                        + code as u64;
                    if id > u32::MAX as u64 {
                        None
                    } else {
                        Some(Nuclide::WithId(id as u32))
                    }
                },
            }
        } else {
            None
        }
    }

    pub fn to_string(&self) -> (r: String)
        requires
            self.is_nameable(),
        ensures
            r@ == self.spec_to_string(),
    {
        match self {
            Nuclide::WithId(id) => {
                let sym = Symbol::from_z((*id / Z_UNIT) as u8).unwrap();
                let mut r = String::new();
                r.append(sym.name());
                let dash = "-";
                proof {
                    reveal_strlit("-");
                }
                r.append(dash);
                append_decimal(&mut r, (*id / A_UNIT) % 1000);
                match MetastableState::from_code(*id % 10) {
                    Some(st) => r.append(st.name()),
                    None => {},
                }
                assert(r@ =~= self.spec_to_string());
                r
            },
            Nuclide::FissionProducts => {
                proof {
                    reveal_strlit("various");
                }
                String::from_str("various")
            },
        }
    }
}

impl std::str::FromStr for Nuclide {
    type Err = Error;

    fn from_str(s: &str) -> Result<Nuclide, Error> {
        match Nuclide::parse(s) {
            Some(n) => Ok(n),
            None => Err(Error::InvalidNuclide(s.to_owned())),
        }
    }
}

impl std::str::FromStr for MetastableState {
    type Err = Error;

    fn from_str(s: &str) -> Result<MetastableState, Error> {
        match MetastableState::parse(s) {
            Some(st) => Ok(st),
            None => Err(Error::InvalidState(s.to_owned())),
        }
    }
}

} // verus!
